use agsh::permission::{IndicatorColor, Permission, SharedPermission};

#[test]
fn test_permission_allows() {
    assert!(Permission::Write.allows(Permission::NoTools));
    assert!(Permission::Write.allows(Permission::Read));
    assert!(Permission::Write.allows(Permission::Ask));
    assert!(Permission::Write.allows(Permission::Write));

    assert!(Permission::Ask.allows(Permission::NoTools));
    assert!(Permission::Ask.allows(Permission::Read));
    assert!(Permission::Ask.allows(Permission::Ask));
    assert!(Permission::Ask.allows(Permission::Write));

    assert!(Permission::Read.allows(Permission::NoTools));
    assert!(Permission::Read.allows(Permission::Read));
    assert!(!Permission::Read.allows(Permission::Ask));
    assert!(!Permission::Read.allows(Permission::Write));

    assert!(Permission::NoTools.allows(Permission::NoTools));
    assert!(!Permission::NoTools.allows(Permission::Read));
    assert!(!Permission::NoTools.allows(Permission::Ask));
    assert!(!Permission::NoTools.allows(Permission::Write));
}

#[test]
fn test_permission_cycle() {
    assert_eq!(Permission::NoTools.cycle_next(), Permission::Read);
    assert_eq!(Permission::Read.cycle_next(), Permission::Ask);
    assert_eq!(Permission::Ask.cycle_next(), Permission::Write);
    assert_eq!(Permission::Write.cycle_next(), Permission::NoTools);
}

#[test]
fn test_permission_from_str() {
    assert_eq!(Permission::from_str("none"), Ok(Permission::NoTools));
    assert_eq!(Permission::from_str("read"), Ok(Permission::Read));
    assert_eq!(Permission::from_str("ask"), Ok(Permission::Ask));
    assert_eq!(Permission::from_str("write"), Ok(Permission::Write));
    assert_eq!(Permission::from_str("n"), Ok(Permission::NoTools));
    assert_eq!(Permission::from_str("r"), Ok(Permission::Read));
    assert_eq!(Permission::from_str("a"), Ok(Permission::Ask));
    assert_eq!(Permission::from_str("w"), Ok(Permission::Write));
    assert!(Permission::from_str("invalid").is_err());
}

#[test]
fn test_permission_display() {
    assert_eq!(Permission::NoTools.to_string(), "none");
    assert_eq!(Permission::Read.to_string(), "read");
    assert_eq!(Permission::Ask.to_string(), "ask");
    assert_eq!(Permission::Write.to_string(), "write");
}

#[test]
fn test_shared_permission() {
    let shared = SharedPermission::new(Permission::Read);
    assert_eq!(shared.get(), Permission::Read);

    shared.set(Permission::Write);
    assert_eq!(shared.get(), Permission::Write);

    let next = shared.cycle();
    assert_eq!(next, Permission::NoTools);
    assert_eq!(shared.get(), Permission::NoTools);
}

#[test]
fn test_shared_permission_clone() {
    let shared = SharedPermission::new(Permission::Read);
    let cloned = shared.clone();

    shared.set(Permission::Write);
    assert_eq!(cloned.get(), Permission::Write);
}

#[test]
fn test_shared_permission_ask() {
    let shared = SharedPermission::new(Permission::Ask);
    assert_eq!(shared.get(), Permission::Ask);
    assert_eq!(shared.get().indicator(), "a");
}

#[test]
fn from_str_ignores_case() {
    assert_eq!(Permission::from_str("WRITE"), Ok(Permission::Write));
    assert_eq!(Permission::from_str("Read"), Ok(Permission::Read));
    assert_eq!(Permission::from_str("A"), Ok(Permission::Ask));
}

#[test]
fn from_str_error_names_the_lowercased_input() {
    assert_eq!(
        Permission::from_str("Bogus"),
        Err("invalid permission mode 'bogus': expected 'none', 'read', 'ask', or 'write'"
            .to_string())
    );
    assert!(Permission::from_str("").is_err());
    assert!(Permission::from_str(" read").is_err());
}

#[test]
fn from_lowercase_name_is_case_sensitive() {
    assert_eq!(Permission::from_lowercase_name("ask"), Ok(Permission::Ask));
    assert!(Permission::from_lowercase_name("ASK").is_err());
}

#[test]
fn names_and_indicators_parse_back() {
    for p in [Permission::NoTools, Permission::Read, Permission::Ask, Permission::Write] {
        assert_eq!(Permission::from_str(&p.to_string()), Ok(p));
        assert_eq!(Permission::from_str(p.indicator()), Ok(p));
    }
}

#[test]
fn cycling_four_times_returns_to_start() {
    for p in [Permission::NoTools, Permission::Read, Permission::Ask, Permission::Write] {
        assert_eq!(p.cycle_next().cycle_next().cycle_next().cycle_next(), p);
        assert_ne!(p.cycle_next(), p);
    }
}

#[test]
fn indicators_and_colors() {
    assert_eq!(Permission::NoTools.indicator(), "n");
    assert_eq!(Permission::Read.indicator(), "r");
    assert_eq!(Permission::Write.indicator(), "w");
    assert_eq!(Permission::NoTools.indicator_color(), IndicatorColor::Green);
    assert_eq!(Permission::Read.indicator_color(), IndicatorColor::Yellow);
    assert_eq!(Permission::Ask.indicator_color(), IndicatorColor::Magenta);
    assert_eq!(Permission::Write.indicator_color(), IndicatorColor::Red);
}

#[test]
fn codes_round_trip_and_unknown_codes_read_as_none() {
    for p in [Permission::NoTools, Permission::Read, Permission::Ask, Permission::Write] {
        assert_eq!(Permission::from_code(p.code()), p);
    }
    assert_eq!(Permission::Write.code(), 3);
    assert_eq!(Permission::from_code(7), Permission::NoTools);
}

#[test]
fn higher_levels_allow_what_lower_levels_allow() {
    let levels = [Permission::NoTools, Permission::Read, Permission::Ask, Permission::Write];
    for (i, low) in levels.iter().enumerate() {
        for high in &levels[i..] {
            for required in levels {
                if low.allows(required) {
                    assert!(high.allows(required));
                }
            }
        }
    }
}

#[test]
fn shared_cycle_walks_every_level() {
    let shared = SharedPermission::new(Permission::NoTools);
    assert_eq!(shared.cycle(), Permission::Read);
    assert_eq!(shared.cycle(), Permission::Ask);
    assert_eq!(shared.cycle(), Permission::Write);
    assert_eq!(shared.cycle(), Permission::NoTools);
}
