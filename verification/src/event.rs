//! Kinds of events delivered to robots (polled with `pop_event()`).
use vstd::prelude::*;

verus! {

#[derive(Clone, Copy, Debug, PartialEq, Eq, Structural)]
pub enum EventKind {
    /// Radar locked onto an enemy this tick.
    Scanned,
    /// One of my bullets hit an enemy.
    BulletHit,
    /// I was hit by an enemy bullet.
    HitByBullet,
    /// One of my bullets left the arena without hitting.
    BulletMissed,
    /// I hit a wall.
    Wall,
    /// I collided with another robot.
    RobotCollision,
    /// Another robot died.
    RobotDeath,
}

/// The name robot code sees for each kind.
pub open spec fn event_name(k: EventKind) -> Seq<char> {
    match k {
        EventKind::Scanned => "scanned"@,
        EventKind::BulletHit => "bullet_hit"@,
        EventKind::HitByBullet => "hit_by_bullet"@,
        EventKind::BulletMissed => "bullet_missed"@,
        EventKind::Wall => "wall"@,
        EventKind::RobotCollision => "robot_collision"@,
        EventKind::RobotDeath => "robot_death"@,
    }
}

impl EventKind {
    /// The string `pop_event()` returns for this kind.
    pub fn as_str(self) -> (s: &'static str)
        ensures
            s@ == event_name(self),
    {
        match self {
            EventKind::Scanned => "scanned",
            EventKind::BulletHit => "bullet_hit",
            EventKind::HitByBullet => "hit_by_bullet",
            EventKind::BulletMissed => "bullet_missed",
            EventKind::Wall => "wall",
            EventKind::RobotCollision => "robot_collision",
            EventKind::RobotDeath => "robot_death",
        }
    }
}

/// Distinct kinds have distinct names, so robot code can tell every event
/// apart by the string alone.
pub proof fn lemma_event_names_distinct(a: EventKind, b: EventKind)
    requires
        a != b,
    ensures
        event_name(a) != event_name(b),
{
    reveal_strlit("scanned");
    reveal_strlit("bullet_hit");
    reveal_strlit("hit_by_bullet");
    reveal_strlit("bullet_missed");
    reveal_strlit("wall");
    reveal_strlit("robot_collision");
    reveal_strlit("robot_death");
    if event_name(a) == event_name(b) {
        assert(event_name(a).len() == event_name(b).len());
        match a {
            EventKind::Scanned => { assert(event_name(a)[0] == event_name(b)[0]); }
            EventKind::BulletHit => { assert(event_name(a)[7] == event_name(b)[7]); }
            EventKind::HitByBullet => { assert(event_name(a)[0] == event_name(b)[0]); }
            EventKind::BulletMissed => { assert(event_name(a)[7] == event_name(b)[7]); }
            EventKind::Wall => { assert(event_name(a)[0] == event_name(b)[0]); }
            EventKind::RobotCollision => { assert(event_name(a)[6] == event_name(b)[6]); }
            EventKind::RobotDeath => { assert(event_name(a)[6] == event_name(b)[6]); }
        }
    }
}

} // verus!
