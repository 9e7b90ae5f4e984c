//! Which isolation mechanisms a host offers, and the ladder they form.
//!
//! The program never owns the host it runs on, so isolation is detected at run time and applied as
//! a ladder, strongest first, with a floor that needs nothing from the kernel beyond POSIX:
//!
//! | Tier | Mechanism |
//! |---|---|
//! | 0 | `RLIMIT_*` and `PR_SET_NO_NEW_PRIVS` |
//! | 1 | seccomp system call filter |
//! | 2 | Landlock filesystem confinement |
//! | 3 | cgroup v2 accounting |
//!
//! Tiers above 0 are applied when the host offers them; see [`crate::session`] for what each of them
//! carries.
use vstd::prelude::*;

use crate::kernel::libc_efault;
use crate::platform::{Platform, System};

verus! {

/// Which mechanisms this host offers, probed rather than assumed.
#[derive(Debug, Clone, Copy, PartialEq, Eq)]
pub struct IsolationSupport {
    pub rlimit: bool,
    pub no_new_privs: bool,
    pub seccomp_filter: bool,
    pub landlock: bool,
    pub cgroup_v2_writable: bool,
    /// Set when the architecture has no known system call table, so that a filter would have to
    /// guess system call numbers.
    pub seccomp_unsupported_arch: bool,
}

impl Default for IsolationSupport {
    /// No mechanism is offered.
    fn default() -> (support: Self)
        ensures
            support == IsolationSupport::nothing(),
    {
        IsolationSupport {
            rlimit: false,
            no_new_privs: false,
            seccomp_filter: false,
            landlock: false,
            cgroup_v2_writable: false,
            seccomp_unsupported_arch: false,
        }
    }
}

impl IsolationSupport {
    /// No mechanism is offered.
    pub open spec fn nothing() -> IsolationSupport {
        IsolationSupport {
            rlimit: false,
            no_new_privs: false,
            seccomp_filter: false,
            landlock: false,
            cgroup_v2_writable: false,
            seccomp_unsupported_arch: false,
        }
    }

    /// The mechanism of a tier is offered.
    pub open spec fn offers(self, tier: int) -> bool {
        ||| tier == 0 && self.rlimit
        ||| tier == 1 && self.seccomp_filter
        ||| tier == 2 && self.landlock
        ||| tier == 3 && self.cgroup_v2_writable
    }

    /// The highest tier that is offered; 255 when none is.
    pub open spec fn highest_tier(self) -> u8 {
        if self.offers(3) {
            3
        } else if self.offers(2) {
            2
        } else if self.offers(1) {
            1
        } else if self.offers(0) {
            0
        } else {
            255
        }
    }

    /// The highest tier that is actually usable, named for declaration to an operator.
    pub fn tier(&self) -> (tier: u8)
        ensures
            tier == self.highest_tier(),
    {
        if self.cgroup_v2_writable {
            3
        } else if self.landlock {
            2
        } else if self.seccomp_filter {
            1
        } else if self.rlimit {
            0
        } else {
            255  // nothing at all: not an isolation host
        }
    }

    pub fn tier_name(&self) -> (name: &'static str)
        ensures
            name@ == name_of_tier(self.highest_tier()),
    {
        tier_name(self.tier())
    }
}

/// The name under which a tier is declared.
pub open spec fn name_of_tier(tier: u8) -> Seq<char> {
    if tier == 0 {
        "POSIX_RLIMIT"@
    } else if tier == 1 {
        "SECCOMP_FILTER"@
    } else if tier == 2 {
        "LANDLOCK"@
    } else if tier == 3 {
        "CGROUP_V2"@
    } else {
        "NONE"@
    }
}

/// The name under which a tier is declared.
pub fn tier_name(tier: u8) -> (name: &'static str)
    ensures
        name@ == name_of_tier(tier),
{
    match tier {
        0 => "POSIX_RLIMIT",
        1 => "SECCOMP_FILTER",
        2 => "LANDLOCK",
        3 => "CGROUP_V2",
        _ => "NONE",
    }
}

/// What a system call came back with: its return value, and the errno read right after it.
#[derive(Debug, Clone, Copy, PartialEq, Eq)]
pub struct Reply {
    pub status: i64,
    pub errno: i32,
}

impl Reply {
    /// The call succeeded.
    pub open spec fn ok(self) -> bool {
        self.status == 0
    }
}

/// The raw outcome of probing a host. No probe installs or changes anything.
#[derive(Debug, Clone, PartialEq, Eq)]
pub struct HostProbes {
    /// What `getrlimit(RLIMIT_AS)` returned.
    pub getrlimit: i32,
    /// What `prctl(PR_GET_NO_NEW_PRIVS)` returned. Queried, not set: setting it would leak into
    /// the parent.
    pub no_new_privs: i32,
    /// What `seccomp(SECCOMP_SET_MODE_FILTER)` with a null program came back with, where the
    /// architecture is known and the call was made.
    pub seccomp: Option<Reply>,
    /// What the query for the Landlock ABI version returned.
    pub landlock: i64,
    /// What opening each of the control group files for writing returned, up to the first that
    /// could be opened.
    pub cgroup: Vec<i32>,
}

/// The control group files that are tried: mounted is not the same as delegated, and whether this
/// process may write a limit is only known from opening one for writing.
pub fn cgroup_v2_candidates() -> (paths: Vec<&'static str>)
    ensures
        paths@.len() == 2,
        paths@[0]@ == "/sys/fs/cgroup/cgroup.subtree_control"@,
        paths@[1]@ == "/sys/fs/cgroup/cgroup.procs"@,
{
    vec!["/sys/fs/cgroup/cgroup.subtree_control", "/sys/fs/cgroup/cgroup.procs"]
}

/// Whether an `open` succeeded.
pub fn is_open(descriptor: i32) -> (b: bool)
    ensures
        b == (descriptor >= 0),
{
    descriptor >= 0
}

/// Some control group file could be opened for writing.
pub open spec fn any_open(descriptors: Seq<i32>) -> bool {
    exists|i: int| 0 <= i < descriptors.len() && #[trigger] descriptors[i] >= 0
}

/// Whether a writable control group subtree was found.
pub fn cgroup_v2_writable(descriptors: &Vec<i32>) -> (b: bool)
    ensures
        b == any_open(descriptors@),
{
    let mut i: usize = 0;
    while i < descriptors.len()
        invariant
            i <= descriptors@.len(),
            forall|j: int| 0 <= j < i ==> #[trigger] descriptors@[j] < 0,
        decreases descriptors.len() - i,
    {
        if is_open(descriptors[i]) {
            assert(descriptors@[i as int] >= 0);
            return true;
        }
        i = i + 1;
    }
    false
}

/// Filter mode exists: the null program is answered with a failure, and the errno is `EFAULT`.
/// `EINVAL` would mean that the mode is unknown, and `ENOSYS` that the call is absent.
pub open spec fn probe_shows_filter_mode(probe: Option<Reply>) -> bool {
    probe is Some && probe->0.status == -1 && probe->0.errno == 14
}

/// What a host offers, given its platform and what the probes came back with.
pub open spec fn support_from(platform: Platform, probes: HostProbes) -> IsolationSupport {
    match platform.system {
        System::Linux => IsolationSupport {
            rlimit: probes.getrlimit == 0,
            no_new_privs: probes.no_new_privs >= 0,
            seccomp_filter: platform.audit() is Some && probe_shows_filter_mode(probes.seccomp),
            landlock: probes.landlock > 0,
            cgroup_v2_writable: any_open(probes.cgroup@),
            seccomp_unsupported_arch: platform.audit() is None,
        },
        _ => IsolationSupport {
            rlimit: platform.system is OtherUnix,
            no_new_privs: false,
            seccomp_filter: false,
            landlock: false,
            cgroup_v2_writable: false,
            seccomp_unsupported_arch: true,
        },
    }
}

/// Reads the probes. On a system other than Linux the POSIX floor is still real, and everything
/// above it is honestly reported as absent.
pub fn detect(platform: Platform, probes: &HostProbes) -> (support: IsolationSupport)
    ensures
        support == support_from(platform, *probes),
{
    match platform.system {
        System::Linux => {
            let mut support = IsolationSupport::default();
            // If getrlimit works, setrlimit downward works: lowering a soft limit needs no
            // privilege on any POSIX system.
            support.rlimit = probes.getrlimit == 0;
            support.no_new_privs = probes.no_new_privs >= 0;
            support.seccomp_filter = if platform.arch_known() {
                match probes.seccomp {
                    Some(reply) => reply.status == -1 && reply.errno == libc_efault(),
                    None => false,
                }
            } else {
                false
            };
            support.seccomp_unsupported_arch = !platform.arch_known();
            support.landlock = probes.landlock > 0;
            support.cgroup_v2_writable = cgroup_v2_writable(&probes.cgroup);
            support
        },
        System::OtherUnix => IsolationSupport {
            rlimit: true,
            no_new_privs: false,
            seccomp_filter: false,
            landlock: false,
            cgroup_v2_writable: false,
            seccomp_unsupported_arch: true,
        },
        System::Other => IsolationSupport {
            rlimit: false,
            no_new_privs: false,
            seccomp_filter: false,
            landlock: false,
            cgroup_v2_writable: false,
            seccomp_unsupported_arch: true,
        },
    }
}

/// The tier that is reported is offered, and no higher one is; 255 is reported only when none is.
pub proof fn law_tier_is_the_highest_offered(support: IsolationSupport, tier: int)
    ensures
        support.highest_tier() != 255 ==> support.offers(support.highest_tier() as int),
        support.offers(tier) ==> support.highest_tier() != 255 && tier <= support.highest_tier(),
{
}

/// Different tiers have different names, so the name tells the tier.
pub proof fn law_tier_names_are_distinct(a: IsolationSupport, b: IsolationSupport)
    ensures
        name_of_tier(a.highest_tier()) == name_of_tier(b.highest_tier()) <==> a.highest_tier()
            == b.highest_tier(),
{
    reveal_strlit("POSIX_RLIMIT");
    reveal_strlit("SECCOMP_FILTER");
    reveal_strlit("LANDLOCK");
    reveal_strlit("CGROUP_V2");
    reveal_strlit("NONE");
    assert("POSIX_RLIMIT"@.len() == 12);
    assert("SECCOMP_FILTER"@.len() == 14);
    assert("LANDLOCK"@.len() == 8);
    assert("CGROUP_V2"@.len() == 9);
    assert("NONE"@.len() == 4);
    if name_of_tier(a.highest_tier()) == name_of_tier(b.highest_tier()) {
        assert(name_of_tier(a.highest_tier()).len() == name_of_tier(b.highest_tier()).len());
    }
}

/// A filter is never reported where the system call table is not known, and that lack is declared.
pub proof fn law_no_filter_without_a_known_table(platform: Platform, probes: HostProbes)
    ensures
        support_from(platform, probes).seccomp_unsupported_arch <==> platform.audit() is None,
        support_from(platform, probes).seccomp_filter ==> !support_from(
            platform,
            probes,
        ).seccomp_unsupported_arch,
{
}

/// Whatever else is missing, the floor is there: a Unix system, or a Linux host that answers
/// `getrlimit`, has a usable tier.
pub proof fn law_the_posix_floor_holds(platform: Platform, probes: HostProbes)
    requires
        platform.system is OtherUnix || (platform.system is Linux && probes.getrlimit == 0),
    ensures
        support_from(platform, probes).rlimit,
        support_from(platform, probes).highest_tier() != 255,
{
}

/// The tier is that of the strongest mechanism offered: each is declared exactly when it is there
/// and none above it is, under its own name.
pub proof fn law_each_tier_is_its_own_mechanism(support: IsolationSupport)
    ensures
        ({
            let tier = support.highest_tier();
            let name = name_of_tier(tier);
            &&& support.cgroup_v2_writable ==> tier == 3 && name == "CGROUP_V2"@
            &&& !support.cgroup_v2_writable && support.landlock ==> tier == 2 && name
                == "LANDLOCK"@
            &&& !support.cgroup_v2_writable && !support.landlock && support.seccomp_filter ==> tier
                == 1 && name == "SECCOMP_FILTER"@
            &&& !support.cgroup_v2_writable && !support.landlock && !support.seccomp_filter
                && support.rlimit ==> tier == 0 && name == "POSIX_RLIMIT"@
            &&& !support.cgroup_v2_writable && !support.landlock && !support.seccomp_filter
                && !support.rlimit ==> tier == 255 && name == "NONE"@
        }),
        support.offers(0) <==> support.rlimit,
        support.offers(1) <==> support.seccomp_filter,
        support.offers(2) <==> support.landlock,
        support.offers(3) <==> support.cgroup_v2_writable,
{
}

/// On Linux each mechanism is offered exactly when its own probe says so, whatever the other probes
/// say; on any other system no probe counts.
pub proof fn law_each_mechanism_has_its_own_probe(platform: Platform, probes: HostProbes)
    ensures
        ({
            let support = support_from(platform, probes);
            let known = platform.architecture is X86_64 || platform.architecture is Aarch64;
            &&& platform.system is Linux ==> {
                &&& support.rlimit <==> probes.getrlimit == 0
                &&& support.no_new_privs <==> probes.no_new_privs >= 0
                &&& support.seccomp_filter <==> known && probes.seccomp is Some
                    && probes.seccomp->0.status == -1 && probes.seccomp->0.errno == 14
                &&& support.landlock <==> probes.landlock > 0
                &&& support.cgroup_v2_writable <==> exists|i: int|
                    0 <= i < probes.cgroup@.len() && #[trigger] probes.cgroup@[i] >= 0
                &&& support.seccomp_unsupported_arch <==> !known
            }
            &&& platform.system !is Linux ==> {
                &&& support.rlimit <==> platform.system is OtherUnix
                &&& !support.no_new_privs && !support.seccomp_filter && !support.landlock
                &&& !support.cgroup_v2_writable && support.seccomp_unsupported_arch
            }
        }),
{
}

/// A call succeeded exactly when it returned zero.
pub proof fn law_zero_is_success(reply: Reply)
    ensures
        reply.ok() <==> reply.status == 0,
{
}

/// Some file could be opened exactly when one of the descriptors is not negative.
pub proof fn law_any_descriptor_will_do(descriptors: Seq<i32>)
    ensures
        any_open(descriptors) <==> exists|i: int|
            0 <= i < descriptors.len() && #[trigger] descriptors[i] >= 0,
{
}

/// Only the four tiers of the ladder have a name of their own.
pub proof fn law_other_tiers_have_no_name(tier: u8)
    ensures
        name_of_tier(0) == "POSIX_RLIMIT"@,
        name_of_tier(1) == "SECCOMP_FILTER"@,
        name_of_tier(2) == "LANDLOCK"@,
        name_of_tier(3) == "CGROUP_V2"@,
        tier > 3 ==> name_of_tier(tier) == "NONE"@,
{
}

/// A host that offers nothing offers none of the mechanisms.
pub proof fn law_nothing_is_no_mechanism(support: IsolationSupport)
    ensures
        support == IsolationSupport::nothing() <==> !support.rlimit && !support.no_new_privs
            && !support.seccomp_filter && !support.landlock && !support.cgroup_v2_writable
            && !support.seccomp_unsupported_arch,
{
}

} // verus!
