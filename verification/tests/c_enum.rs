use fanwatch::c_enum::{CEnumParseError, EnumValues, Flag, FlagSet};
use fanwatch::events::{FanEvents, FanResponse};

fn o_append() -> Flag {
    Flag::new("O_APPEND", libc::O_APPEND as u64)
}

fn o_async() -> Flag {
    Flag::new("O_ASYNC", libc::O_ASYNC as u64)
}

fn io_flags() -> FlagSet {
    FlagSet::new(vec![o_append(), o_async()]).unwrap()
}

fn listed(set: &FlagSet) -> Vec<(&'static str, u64)> {
    set.enumerate().iter().map(|flag| (flag.name, flag.bits)).collect()
}

#[test]
fn enum_value() {
    assert_eq!(io_flags().enumerate()[0].bits as i32, libc::O_APPEND);
}

#[test]
fn enum_parse() {
    assert_eq!(io_flags().parse("O_APPEND").unwrap(), o_append());
}

#[test]
fn enum_str() {
    assert_eq!(o_append().render(), "O_APPEND");
}

#[test]
fn enum_bit() {
    assert_eq!(
        o_append().combine(libc::O_ASYNC as u64),
        (libc::O_APPEND | libc::O_ASYNC) as u64
    );
    assert_eq!(
        o_append().intersect(libc::O_ASYNC as u64),
        (libc::O_APPEND & libc::O_ASYNC) as u64
    );
}

#[test]
fn event_values_are_those_of_the_kernel() {
    let expected: Vec<(&str, u64)> = vec![
        ("FAN_ACCESS", libc::FAN_ACCESS),
        ("FAN_MODIFY", libc::FAN_MODIFY),
        ("FAN_CLOSE_WRITE", libc::FAN_CLOSE_WRITE),
        ("FAN_CLOSE_NOWRITE", libc::FAN_CLOSE_NOWRITE),
        ("FAN_OPEN", libc::FAN_OPEN),
        ("FAN_Q_OVERFLOW", libc::FAN_Q_OVERFLOW),
        ("FAN_ACCESS_PERM", libc::FAN_ACCESS_PERM),
        ("FAN_OPEN_PERM", libc::FAN_OPEN_PERM),
        ("FAN_ONDIR", libc::FAN_ONDIR),
        ("FAN_EVENT_ON_CHILD", libc::FAN_EVENT_ON_CHILD),
    ];
    assert_eq!(listed(&FanEvents::values()), expected);
}

#[test]
fn event_values_are_fixed_numbers() {
    let expected: Vec<(&str, u64)> = vec![
        ("FAN_ACCESS", 0x1),
        ("FAN_MODIFY", 0x2),
        ("FAN_CLOSE_WRITE", 0x8),
        ("FAN_CLOSE_NOWRITE", 0x10),
        ("FAN_OPEN", 0x20),
        ("FAN_Q_OVERFLOW", 0x4000),
        ("FAN_ACCESS_PERM", 0x20000),
        ("FAN_OPEN_PERM", 0x10000),
        ("FAN_ONDIR", 0x4000_0000),
        ("FAN_EVENT_ON_CHILD", 0x0800_0000),
    ];
    assert_eq!(listed(&FanEvents::values()), expected);
}

#[test]
fn response_values_are_those_of_the_kernel() {
    assert_eq!(
        listed(&FanResponse::values()),
        vec![("FAN_ALLOW", libc::FAN_ALLOW as u64), ("FAN_DENY", libc::FAN_DENY as u64)]
    );
    assert_eq!(listed(&FanResponse::values()), vec![("FAN_ALLOW", 1), ("FAN_DENY", 2)]);
}

#[test]
fn permission_bits_are_the_two_permission_events() {
    assert_eq!(FanEvents::permission_bits(), libc::FAN_OPEN_PERM | libc::FAN_ACCESS_PERM);
    assert_eq!(FanEvents::permission_bits(), 0x30000);
}

#[test]
fn parse_gives_back_every_rendered_flag() {
    for set in [FanEvents::values(), FanResponse::values(), io_flags()] {
        for flag in set.enumerate() {
            assert_eq!(set.parse(flag.render()).unwrap(), flag);
        }
    }
}

#[test]
fn enumerate_is_in_declaration_order_and_restartable() {
    let set = io_flags();
    assert_eq!(set.enumerate(), vec![o_append(), o_async()]);
    assert_eq!(set.enumerate(), set.enumerate());
    assert_eq!(FanEvents::values().enumerate(), FanEvents::values().enumerate());
}

#[test]
fn parse_rejects_what_is_not_declared() {
    let set = FanEvents::values();
    for name in ["", "fan_open", "FAN_OPEN ", " FAN_OPEN", "FAN_OPE", "FAN_OPENX", "OPEN", "FAN_ALLOW"] {
        let error = set.parse(name).unwrap_err();
        assert_eq!(error.value(), name);
    }
    assert!(FanResponse::values().parse("FAN_OPEN").is_err());
}

#[test]
fn parse_error_lists_all_valid_names() {
    let error = FanEvents::values().parse("bogus").unwrap_err();
    assert_eq!(
        error.message(),
        "invalid value: bogus, options: FAN_ACCESS, FAN_MODIFY, FAN_CLOSE_WRITE, \
         FAN_CLOSE_NOWRITE, FAN_OPEN, FAN_Q_OVERFLOW, FAN_ACCESS_PERM, FAN_OPEN_PERM, FAN_ONDIR, \
         FAN_EVENT_ON_CHILD"
    );
    let error = FanResponse::values().parse("ALLOW").unwrap_err();
    assert_eq!(error.message(), "invalid value: ALLOW, options: FAN_ALLOW, FAN_DENY");
}

#[test]
fn parse_error_of_a_small_table() {
    let error = CEnumParseError::new("x", &io_flags());
    assert_eq!(error.value(), "x");
    assert_eq!(error.message(), "invalid value: x, options: O_APPEND, O_ASYNC");
    let single = FlagSet::new(vec![o_append()]).unwrap();
    assert_eq!(
        CEnumParseError::new("", &single).message(),
        "invalid value: , options: O_APPEND"
    );
    let empty = FlagSet::new(vec![]).unwrap();
    assert_eq!(CEnumParseError::new("y", &empty).message(), "invalid value: y, options: ");
}

#[test]
fn a_table_needs_distinct_names() {
    assert!(FlagSet::new(vec![o_append(), o_append()]).is_none());
    assert!(FlagSet::new(vec![o_append(), o_async(), Flag::new("O_APPEND", 7)]).is_none());
    assert!(FlagSet::new(vec![Flag::new("A", 1), Flag::new("B", 1)]).is_some());
    assert!(FlagSet::new(vec![]).is_some());
}

#[test]
fn test_and_combine_work_on_bits() {
    let open = FanEvents::values().parse("FAN_OPEN").unwrap();
    let modify = FanEvents::values().parse("FAN_MODIFY").unwrap();
    assert_eq!(open.bits, 0x20);
    assert!(open.test(0x20));
    assert!(open.test(0x22));
    assert!(!open.test(0x02));
    assert!(!open.test(0));
    assert_eq!(open.combine(0), 0x20);
    assert_eq!(modify.combine(open.combine(0)), 0x22);
    assert_eq!(open.combine(0x20), 0x20);
    assert_eq!(open.intersect(0x22), 0x20);
    assert_eq!(open.intersect(0x02), 0);
}

#[test]
fn mask_of_a_list_of_names() {
    let set = FanEvents::values();
    assert_eq!(set.parse_mask("FAN_OPEN,FAN_MODIFY").unwrap(), 0x22);
    assert_eq!(set.parse_mask("FAN_OPEN").unwrap(), 0x20);
    assert_eq!(set.parse_mask("FAN_OPEN,FAN_OPEN").unwrap(), 0x20);
    assert_eq!(
        set.parse_mask("FAN_OPEN_PERM,FAN_ACCESS_PERM").unwrap(),
        FanEvents::permission_bits()
    );
}

#[test]
fn mask_of_a_list_with_a_wrong_name() {
    let set = FanEvents::values();
    assert_eq!(set.parse_mask("FAN_OPEN,nope,also").unwrap_err().value(), "nope");
    assert_eq!(set.parse_mask("").unwrap_err().value(), "");
    assert_eq!(set.parse_mask("FAN_OPEN,").unwrap_err().value(), "");
    assert_eq!(set.parse_mask(",FAN_OPEN").unwrap_err().value(), "");
    assert_eq!(set.parse_mask("FAN_OPEN, FAN_MODIFY").unwrap_err().value(), " FAN_MODIFY");
    assert_eq!(set.parse_mask("FAN_OPEN|FAN_MODIFY").unwrap_err().value(), "FAN_OPEN|FAN_MODIFY");
}
