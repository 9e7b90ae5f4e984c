use noesar_sandbox::limits::Dimension;
use noesar_sandbox::IsolationLimits;

fn limits(memory: Option<u64>, cpu: Option<u64>) -> IsolationLimits {
    IsolationLimits { memory_bytes: memory, cpu_seconds: cpu, ..Default::default() }
}

#[test]
fn tighter_limits_are_within_a_looser_ceiling() {
    assert!(limits(Some(64), Some(5)).within(&limits(Some(128), Some(10))));
}

#[test]
fn equal_limits_are_within_the_ceiling() {
    assert!(limits(Some(128), Some(10)).within(&limits(Some(128), Some(10))));
}

#[test]
fn a_wider_limit_is_refused_not_clamped() {
    assert!(!limits(Some(256), Some(5)).within(&limits(Some(128), Some(10))));
}

#[test]
fn unlimited_is_never_within_a_limited_ceiling() {
    // The dangerous direction: omitting a field must not read as "fine".
    assert!(!limits(None, Some(5)).within(&limits(Some(128), Some(10))));
}

#[test]
fn any_limit_is_within_an_unlimited_ceiling() {
    assert!(limits(Some(1), Some(1)).within(&IsolationLimits::default()));
    assert!(IsolationLimits::default().within(&IsolationLimits::default()));
}

#[test]
fn constrained_dimensions_counts_only_set_fields() {
    assert_eq!(IsolationLimits::default().constrained_dimensions(), 0);
    assert_eq!(limits(Some(1), None).constrained_dimensions(), 1);
    assert_eq!(limits(Some(1), Some(2)).constrained_dimensions(), 2);
}

#[test]
fn constrained_dimensions_counts_every_dimension() {
    for dimension in Dimension::list() {
        let mut one = IsolationLimits::default();
        one.set(dimension, Some(0));
        assert_eq!(one.constrained_dimensions(), 1);
    }
    let all = IsolationLimits {
        memory_bytes: Some(1),
        cpu_seconds: Some(1),
        open_files: Some(1),
        processes: Some(1),
        file_size_bytes: Some(1),
        core_dump_bytes: Some(1),
    };
    assert_eq!(all.constrained_dimensions(), 6);
}

#[test]
fn exceeds_ignores_dimensions_the_token_leaves_to_the_container() {
    let ceiling = IsolationLimits {
        memory_bytes: Some(8 * 1024 * 1024 * 1024),
        open_files: Some(40960),
        processes: Some(127784),
        core_dump_bytes: Some(0),
        ..Default::default()
    };
    let spec = limits(Some(64 * 1024 * 1024), Some(10));
    assert_eq!(spec.exceeds(&ceiling), None, "64 MiB must be accepted under an 8 GiB ceiling");
    // ...while `within` still refuses it, because it answers the other question.
    assert!(!spec.within(&ceiling), "within must stay strict: it guards the granted scope");
}

#[test]
fn exceeds_names_the_dimension_that_is_too_wide() {
    let ceiling = IsolationLimits { memory_bytes: Some(1024), ..Default::default() };
    let spec = IsolationLimits { memory_bytes: Some(4096), ..Default::default() };
    assert_eq!(spec.exceeds(&ceiling), Some("memoryBytes"));
}

#[test]
fn exceeds_accepts_equality_at_the_ceiling() {
    let ceiling = IsolationLimits { memory_bytes: Some(1024), ..Default::default() };
    let spec = IsolationLimits { memory_bytes: Some(1024), ..Default::default() };
    assert_eq!(spec.exceeds(&ceiling), None);
}

#[test]
fn exceeds_checks_every_dimension_not_just_memory() {
    let ceiling = IsolationLimits {
        memory_bytes: Some(4096), cpu_seconds: Some(10), open_files: Some(64),
        processes: Some(8), file_size_bytes: Some(1000), core_dump_bytes: Some(0),
    };
    assert_eq!(IsolationLimits { cpu_seconds: Some(11), ..ceiling }.exceeds(&ceiling), Some("cpuSeconds"));
    assert_eq!(IsolationLimits { open_files: Some(65), ..ceiling }.exceeds(&ceiling), Some("openFiles"));
    assert_eq!(IsolationLimits { processes: Some(9), ..ceiling }.exceeds(&ceiling), Some("processes"));
    assert_eq!(IsolationLimits { file_size_bytes: Some(1001), ..ceiling }.exceeds(&ceiling), Some("fileSizeBytes"));
    assert_eq!(IsolationLimits { core_dump_bytes: Some(1), ..ceiling }.exceeds(&ceiling), Some("coreDumpBytes"));
}

#[test]
fn exceeds_names_the_first_of_several_violations() {
    let ceiling = IsolationLimits { open_files: Some(1), core_dump_bytes: Some(1), ..Default::default() };
    let spec = IsolationLimits { open_files: Some(2), core_dump_bytes: Some(2), ..Default::default() };
    assert_eq!(spec.exceeds(&ceiling), Some("openFiles"));
}

#[test]
fn within_is_a_partial_order() {
    let tight = limits(Some(1), Some(1));
    let middle = limits(Some(1), Some(2));
    let wide = limits(Some(3), None);
    assert!(tight.within(&tight));
    assert!(tight.within(&middle) && middle.within(&wide) && tight.within(&wide));
    assert!(!middle.within(&tight));
    assert_ne!(tight, middle);
}

#[test]
fn what_is_within_never_exceeds() {
    let ceiling = limits(Some(10), Some(10));
    for memory in [None, Some(5), Some(10), Some(11)] {
        let spec = limits(memory, Some(3));
        if spec.within(&ceiling) {
            assert_eq!(spec.exceeds(&ceiling), None);
        }
        // Accepted by the ceiling check exactly when what the child inherits is within it.
        let inherited = limits(memory.or(ceiling.memory_bytes), Some(3));
        assert_eq!(spec.exceeds(&ceiling).is_none(), inherited.within(&ceiling));
    }
}

#[test]
fn setting_a_dimension_changes_no_other() {
    for dimension in Dimension::list() {
        let mut changed = limits(Some(1), Some(2));
        let before = changed;
        changed.set(dimension, Some(99));
        for other in Dimension::list() {
            if other == dimension {
                assert_eq!(changed.get(other), Some(99));
            } else {
                assert_eq!(changed.get(other), before.get(other));
            }
        }
    }
}
