use tank::event::EventKind;
use tank::host::{host_fn_name, host_lookup, HostFn, HOST_FN_COUNT};

#[test]
fn lookup_by_name() {
    let (f, arity) = host_lookup("fire").unwrap();
    assert_eq!(f, HostFn::Fire);
    assert_eq!(arity, 1);
    assert_eq!(host_lookup("await_tick").unwrap(), (HostFn::AwaitTick, 0));
    assert!(host_lookup("launch_missiles").is_none());
    assert!(host_lookup("").is_none());
}

#[test]
fn index_round_trips() {
    for i in 0..HOST_FN_COUNT {
        let f = HostFn::from_index(i).unwrap();
        assert_eq!(f.index(), i);
        assert_eq!(host_lookup(f.name()).unwrap(), (f, f.arity()));
        assert_eq!(host_fn_name(i), Some(f.name()));
    }
    assert!(HostFn::from_index(HOST_FN_COUNT).is_none());
    assert!(host_fn_name(HOST_FN_COUNT).is_none());
}

#[test]
fn event_names() {
    let all = [
        EventKind::Scanned,
        EventKind::BulletHit,
        EventKind::HitByBullet,
        EventKind::BulletMissed,
        EventKind::Wall,
        EventKind::RobotCollision,
        EventKind::RobotDeath,
    ];
    assert_eq!(EventKind::Scanned.as_str(), "scanned");
    assert_eq!(EventKind::RobotDeath.as_str(), "robot_death");
    for a in all {
        for b in all {
            assert_eq!(a == b, a.as_str() == b.as_str());
        }
    }
}

#[test]
fn aimed_fire_is_a_host_function() {
    assert_eq!(host_lookup("fire_at").unwrap(), (HostFn::FireAt, 2));
    assert_eq!(HostFn::FireAt.name(), "fire_at");
    assert_eq!(HostFn::from_index(HostFn::FireAt.index()), Some(HostFn::FireAt));
}

#[test]
fn quick_start_robot_compiles() {
    let src = "// hello.bot: sweep the radar, aim, shoot.\n\
        func main() {\n\
            set_radar_rate(45);\n\
            while (true) {\n\
                var e = pop_event();\n\
                if (e == \"scanned\") {\n\
                    fire_at(event_bearing(), 2);\n\
                }\n\
                await_tick();\n\
            }\n\
        }\n";
    let p = tank::compile(src).unwrap();
    assert_eq!(p.n_globals, 1);
}
