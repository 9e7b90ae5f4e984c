//! What was actually applied to a process.
use vstd::prelude::*;

use crate::number::push_signed;
use crate::support::tier_name;

verus! {

/// A mechanism the kernel refused, with its errno.
#[derive(Debug, Clone, PartialEq, Eq)]
pub struct IsolationFailure {
    pub mechanism: String,
    pub errno: i32,
}

impl View for IsolationFailure {
    type V = (Seq<char>, i32);

    open spec fn view(&self) -> (Seq<char>, i32) {
        (self.mechanism@, self.errno)
    }
}

impl IsolationFailure {
    pub fn new(mechanism: &str, errno: i32) -> (failure: IsolationFailure)
        ensures
            failure@ == (mechanism@, errno),
    {
        IsolationFailure { mechanism: mechanism.to_owned(), errno }
    }

    /// The failure as an operator reads it, such as `RLIMIT_AS=errno:1`.
    pub fn describe(&self) -> (text: String)
        ensures
            text@ == self.mechanism@ + "=errno:"@ + crate::number::signed_decimal(
                self.errno as int,
            ),
    {
        let mut text = self.mechanism.clone();
        text.append("=errno:");
        push_signed(&mut text, self.errno);
        text
    }
}

/// What was actually applied to the current process. Anything asked for and refused is named with
/// its errno instead of being dropped.
#[derive(Debug, Clone, PartialEq, Eq)]
pub struct AppliedIsolation {
    pub rlimits_applied: Vec<&'static str>,
    pub no_new_privs: bool,
    pub seccomp_filter: bool,
    pub blocked_syscalls: usize,
    pub landlock: bool,
    pub cgroup_v2: bool,
    pub failures: Vec<IsolationFailure>,
}

/// The contents of an [`AppliedIsolation`].
#[verifier::ext_equal]
pub struct Applied {
    pub rlimits_applied: Seq<Seq<char>>,
    pub no_new_privs: bool,
    pub seccomp_filter: bool,
    pub blocked_syscalls: nat,
    pub landlock: bool,
    pub cgroup_v2: bool,
    pub failures: Seq<(Seq<char>, i32)>,
}

impl Applied {
    /// Nothing was applied, and nothing was refused.
    pub open spec fn nothing() -> Applied {
        Applied {
            rlimits_applied: Seq::empty(),
            no_new_privs: false,
            seccomp_filter: false,
            blocked_syscalls: 0,
            landlock: false,
            cgroup_v2: false,
            failures: Seq::empty(),
        }
    }

    /// A resource limit was accepted.
    pub open spec fn limited(self, name: Seq<char>) -> Applied {
        Applied { rlimits_applied: self.rlimits_applied.push(name), ..self }
    }

    /// A mechanism was refused.
    pub open spec fn failed(self, mechanism: Seq<char>, errno: i32) -> Applied {
        Applied { failures: self.failures.push((mechanism, errno)), ..self }
    }

    /// A mechanism was refused, if it was asked for at all.
    pub open spec fn failed_if(self, asked: bool, mechanism: Seq<char>, errno: i32) -> Applied {
        if asked {
            self.failed(mechanism, errno)
        } else {
            self
        }
    }

    /// Nothing it claims was refused by the kernel.
    pub open spec fn is_complete(self) -> bool {
        self.failures.len() == 0
    }

    /// A failure of the mechanism is recorded.
    pub open spec fn names(self, mechanism: Seq<char>) -> bool {
        exists|k: int| 0 <= k < self.failures.len() && (#[trigger] self.failures[k]).0 == mechanism
    }

    /// The mechanism of a tier was accepted by the kernel.
    pub open spec fn holds(self, tier: int) -> bool {
        ||| tier == 0 && self.rlimits_applied.len() > 0
        ||| tier == 1 && self.seccomp_filter
        ||| tier == 2 && self.landlock
        ||| tier == 3 && self.cgroup_v2
    }

    /// The highest tier that was applied; 255 when none was.
    pub open spec fn highest_tier(self) -> u8 {
        if self.holds(3) {
            3
        } else if self.holds(2) {
            2
        } else if self.holds(1) {
            1
        } else if self.holds(0) {
            0
        } else {
            255
        }
    }
}

impl View for AppliedIsolation {
    type V = Applied;

    open spec fn view(&self) -> Applied {
        Applied {
            rlimits_applied: self.rlimits_applied@.map_values(|name: &'static str| name@),
            no_new_privs: self.no_new_privs,
            seccomp_filter: self.seccomp_filter,
            blocked_syscalls: self.blocked_syscalls as nat,
            landlock: self.landlock,
            cgroup_v2: self.cgroup_v2,
            failures: self.failures@.map_values(|failure: IsolationFailure| failure@),
        }
    }
}

impl Default for AppliedIsolation {
    /// Nothing was applied, and nothing was refused.
    fn default() -> (applied: Self)
        ensures
            applied@ == Applied::nothing(),
    {
        let applied = AppliedIsolation {
            rlimits_applied: Vec::new(),
            no_new_privs: false,
            seccomp_filter: false,
            blocked_syscalls: 0,
            landlock: false,
            cgroup_v2: false,
            failures: Vec::new(),
        };
        assert(applied@ =~= Applied::nothing());
        applied
    }
}

impl AppliedIsolation {
    /// A run is only honest if nothing it claims was refused by the kernel.
    pub fn complete(&self) -> (b: bool)
        ensures
            b == self@.is_complete(),
    {
        self.failures.is_empty()
    }

    /// The highest tier that was applied, which may be lower than what the host offers.
    pub fn tier(&self) -> (tier: u8)
        ensures
            tier == self@.highest_tier(),
    {
        if self.cgroup_v2 {
            3
        } else if self.landlock {
            2
        } else if self.seccomp_filter {
            1
        } else if self.rlimits_applied.len() > 0 {
            0
        } else {
            255
        }
    }

    pub fn tier_name(&self) -> (name: &'static str)
        ensures
            name@ == crate::support::name_of_tier(self@.highest_tier()),
    {
        tier_name(self.tier())
    }

    pub(crate) fn record_limit(&mut self, name: &'static str)
        ensures
            final(self)@ == old(self)@.limited(name@),
    {
        self.rlimits_applied.push(name);
        assert(self@ =~= old(self)@.limited(name@));
    }

    pub(crate) fn record_failure(&mut self, mechanism: &str, errno: i32)
        ensures
            final(self)@ == old(self)@.failed(mechanism@, errno),
    {
        self.failures.push(IsolationFailure::new(mechanism, errno));
        assert(self@ =~= old(self)@.failed(mechanism@, errno));
    }

    pub(crate) fn record_failure_if(&mut self, asked: bool, mechanism: &str, errno: i32)
        ensures
            final(self)@ == old(self)@.failed_if(asked, mechanism@, errno),
    {
        if asked {
            self.record_failure(mechanism, errno);
        }
    }
}

/// A record is viewed as what it holds, field by field.
pub proof fn law_the_view_is_the_record(applied: AppliedIsolation, i: int)
    ensures
        applied@.no_new_privs == applied.no_new_privs,
        applied@.seccomp_filter == applied.seccomp_filter,
        applied@.blocked_syscalls == applied.blocked_syscalls,
        applied@.landlock == applied.landlock,
        applied@.cgroup_v2 == applied.cgroup_v2,
        applied@.rlimits_applied.len() == applied.rlimits_applied@.len(),
        0 <= i < applied.rlimits_applied@.len() ==> applied@.rlimits_applied[i]
            == applied.rlimits_applied@[i]@,
        applied@.failures.len() == applied.failures@.len(),
        0 <= i < applied.failures@.len() ==> applied@.failures[i].0
            == applied.failures@[i].mechanism@ && applied@.failures[i].1
            == applied.failures@[i].errno,
{
}

/// A failure is viewed as its mechanism and its errno.
pub proof fn law_the_view_is_the_failure(failure: IsolationFailure)
    ensures
        failure@.0 == failure.mechanism@,
        failure@.1 == failure.errno,
{
}

/// The tier of a record is that of the strongest mechanism the kernel accepted, and a record is
/// complete exactly when it names no failure.
pub proof fn law_each_tier_is_its_own_record(applied: Applied)
    ensures
        ({
            let tier = applied.highest_tier();
            &&& applied.cgroup_v2 ==> tier == 3
            &&& !applied.cgroup_v2 && applied.landlock ==> tier == 2
            &&& !applied.cgroup_v2 && !applied.landlock && applied.seccomp_filter ==> tier == 1
            &&& !applied.cgroup_v2 && !applied.landlock && !applied.seccomp_filter
                && applied.rlimits_applied.len() > 0 ==> tier == 0
            &&& !applied.cgroup_v2 && !applied.landlock && !applied.seccomp_filter
                && applied.rlimits_applied.len() == 0 ==> tier == 255
        }),
        applied.is_complete() <==> applied.failures.len() == 0,
{
}

/// A fresh record holds nothing. A limit or a failure is added at the end, and nothing else changes.
pub proof fn law_recording_adds_at_the_end(
    applied: Applied,
    name: Seq<char>,
    errno: i32,
    asked: bool,
)
    ensures
        ({
            let nothing = Applied::nothing();
            &&& nothing.rlimits_applied.len() == 0 && nothing.failures.len() == 0
            &&& !nothing.no_new_privs && !nothing.seccomp_filter && !nothing.landlock
            &&& !nothing.cgroup_v2 && nothing.blocked_syscalls == 0
        }),
        applied.limited(name) == (Applied {
            rlimits_applied: applied.rlimits_applied + seq![name],
            ..applied
        }),
        applied.failed(name, errno) == (Applied {
            failures: applied.failures + seq![(name, errno)],
            ..applied
        }),
        applied.failed_if(true, name, errno) == applied.failed(name, errno),
        applied.failed_if(false, name, errno) == applied,
{
    assert(applied.limited(name).rlimits_applied =~= applied.rlimits_applied + seq![name]);
    assert(applied.failed(name, errno).failures =~= applied.failures + seq![(name, errno)]);
}

} // verus!
