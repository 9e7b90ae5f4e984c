use noesar_sandbox::group::own_group;

#[test]
fn the_own_group_is_below_the_current_one() {
    assert_eq!(
        own_group("0::/system.slice/a.service\n", 41),
        Some("/sys/fs/cgroup/system.slice/a.service/noesar-sandbox-41".to_string())
    );
    assert_eq!(
        own_group("12:cpu:/x\n0::/y:z\n0::/later\n", 4294967295),
        Some("/sys/fs/cgroup/y:z/noesar-sandbox-4294967295".to_string())
    );
    assert_eq!(own_group("0::/", 0), Some("/sys/fs/cgroup//noesar-sandbox-0".to_string()));
}

#[test]
fn a_process_outside_the_unified_hierarchy_has_no_group() {
    for text in ["", "\n", "12:cpu:/x\n", "10::/x\n", "0:", "0:name=a:/\n"] {
        assert_eq!(own_group(text, 1), None);
    }
}
