use bootstrap::pids::{decimal, signed_decimal, CgroupFile, LinuxPids, LinuxResources, Pids};

#[test]
fn test_set_pids() {
    let pids = LinuxPids { limit: 1000 };
    let content = Pids::limit_text(&pids);
    assert_eq!(pids.limit.to_string(), content);
}

#[test]
fn test_set_pids_max() {
    let pids = LinuxPids { limit: 0 };
    let content = Pids::limit_text(&pids);
    assert_eq!("max".to_string(), content);
}

#[test]
fn negative_limit_means_unlimited() {
    assert_eq!(Pids::limit_text(&LinuxPids { limit: -5 }), "max");
    assert_eq!(Pids::limit_text(&LinuxPids { limit: i64::MIN }), "max");
}

#[test]
fn limit_one_and_largest() {
    assert_eq!(Pids::limit_text(&LinuxPids { limit: 1 }), "1");
    assert_eq!(Pids::limit_text(&LinuxPids { limit: i64::MAX }), "9223372036854775807");
}

#[test]
fn decimal_edges() {
    assert_eq!(decimal(0), "0");
    assert_eq!(decimal(10), "10");
    assert_eq!(decimal(907), "907");
    assert_eq!(decimal(u64::MAX), "18446744073709551615");
    assert_eq!(signed_decimal(-42), "-42");
    assert_eq!(signed_decimal(i64::MIN), "-9223372036854775808");
    assert_eq!(signed_decimal(7), "7");
}

#[test]
fn apply_writes_limit_then_membership() {
    let res = LinuxResources { pids: Some(LinuxPids { limit: 32 }) };
    let w = Pids::apply(&res, 4242);
    assert_eq!(w.len(), 2);
    assert_eq!(w[0].file, CgroupFile::PidsMax);
    assert_eq!(w[0].content, "32");
    assert_eq!(w[1].file, CgroupFile::Procs);
    assert_eq!(w[1].content, "4242");
}

#[test]
fn apply_without_pids_only_attaches() {
    let res = LinuxResources { pids: None };
    let w = Pids::apply(&res, 17);
    assert_eq!(w.len(), 1);
    assert_eq!(w[0].file, CgroupFile::Procs);
    assert_eq!(w[0].content, "17");
}

#[test]
fn apply_zero_limit_writes_max() {
    let res = LinuxResources { pids: Some(LinuxPids { limit: 0 }) };
    let w = Pids::apply(&res, 1);
    assert_eq!(w[0].content, "max");
    assert_eq!(w[1].content, "1");
}
