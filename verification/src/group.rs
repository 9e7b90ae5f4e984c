//! The control group that a confined process moves into.
//!
//! Accounting per command needs a group of its own. It lies below the group the process is already
//! in, so that every limit of the container still holds for it.
use vstd::prelude::*;
use vstd::slice::slice_subrange;

use crate::number::push_decimal;
use crate::text::{chars_of, find, push_chars};

verus! {

/// Whether a line of `/proc/self/cgroup` is the one for cgroup v2, which starts with `0::`.
pub open spec fn is_unified(line: Seq<char>) -> bool {
    line.len() >= 3 && line[0] == '0' && line[1] == ':' && line[2] == ':'
}

/// The group that a process is in, given the text of its `/proc/self/cgroup`; `None` when it is in
/// no cgroup v2 hierarchy.
pub open spec fn current_group(text: Seq<char>) -> Option<Seq<char>>
    decreases text.len(),
{
    let end = crate::text::index_of(text, '\n') as int;
    let line = text.take(end);
    if is_unified(line) {
        Some(line.skip(3))
    } else if end < text.len() {
        current_group(text.skip(end + 1))
    } else {
        None
    }
}

/// The directory of a group of its own for the process `pid`, below the group it is in.
pub open spec fn own_group_path(group: Seq<char>, pid: u32) -> Seq<char> {
    "/sys/fs/cgroup"@ + group + "/noesar-sandbox-"@ + crate::number::decimal(pid as nat)
}

/// The directory of a group of its own for the process `pid`, given the text of its
/// `/proc/self/cgroup`.
pub fn own_group(text: &str, pid: u32) -> (path: Option<String>)
    ensures
        match path {
            Some(p) => current_group(text@) is Some && p@ == own_group_path(
                current_group(text@)->0,
                pid,
            ),
            None => current_group(text@) is None,
        },
{
    let chars = chars_of(text);
    let mut rest = chars.as_slice();
    loop
        invariant
            current_group(text@) == current_group(rest@),
        decreases rest@.len(),
    {
        let end = find(rest, '\n');
        let line = slice_subrange(rest, 0, end);
        assert(line@ =~= rest@.take(end as int));
        if line.len() >= 3 && line[0] == '0' && line[1] == ':' && line[2] == ':' {
            let group = slice_subrange(line, 3, line.len());
            assert(group@ =~= line@.skip(3));
            let mut path = String::new();
            path.append("/sys/fs/cgroup");
            assert(path@ =~= "/sys/fs/cgroup"@);
            push_chars(&mut path, group);
            path.append("/noesar-sandbox-");
            push_decimal(&mut path, pid as u64);
            return Some(path);
        }
        if end >= rest.len() {
            return None;
        }
        let next = slice_subrange(rest, end + 1, rest.len());
        assert(next@ =~= rest@.skip(end + 1));
        rest = next;
    }
}

/// The group of its own is a child of the group the process is in: its directory is that group's
/// with one more name, which holds no slash.
pub proof fn law_own_group_is_a_child(group: Seq<char>, pid: u32)
    ensures
        ({
            let parent = "/sys/fs/cgroup"@ + group;
            let name = own_group_path(group, pid).skip(parent.len() as int + 1);
            &&& own_group_path(group, pid) == parent + seq!['/'] + name
            &&& name.len() > 0
            &&& forall|i: int| 0 <= i < name.len() ==> #[trigger] name[i] != '/'
        }),
{
    reveal_strlit("/noesar-sandbox-");
    crate::number::lemma_decimal_is_numeral(pid as nat);
    let parent = "/sys/fs/cgroup"@ + group;
    let path = own_group_path(group, pid);
    let digits = crate::number::decimal(pid as nat);
    let name = path.skip(parent.len() as int + 1);
    assert(path =~= parent + "/noesar-sandbox-"@ + digits);
    assert(path =~= parent + seq!['/'] + name);
    assert forall|i: int| 0 <= i < name.len() implies #[trigger] name[i] != '/' by {
        let prefix: int = "/noesar-sandbox-"@.len() - 1;
        if i < prefix {
            assert(name[i] == "/noesar-sandbox-"@[i + 1]);
        } else {
            assert(name[i] == digits[i - prefix]);
            assert(crate::number::is_digit(digits[i - prefix]));
        }
    }
}

/// The text is read line by line. The first line that starts with `0::` decides, by what follows on
/// it; a line that does not is passed over; and without such a line there is no group.
pub proof fn law_the_first_unified_line_decides(line: Seq<char>, rest: Seq<char>)
    requires
        forall|i: int| 0 <= i < line.len() ==> #[trigger] line[i] != '\n',
    ensures
        ({
            let unified = line.len() >= 3 && line[0] == '0' && line[1] == ':' && line[2] == ':';
            &&& unified ==> current_group(line) == Some(line.skip(3))
            &&& unified ==> current_group(line + seq!['\n'] + rest) == Some(line.skip(3))
            &&& !unified ==> current_group(line) is None
            &&& !unified ==> current_group(line + seq!['\n'] + rest) == current_group(rest)
        }),
{
    let whole = line + seq!['\n'] + rest;
    let at = line.len() as int;
    crate::text::lemma_index_of(line, '\n');
    crate::text::lemma_index_of(whole, '\n');
    let i = crate::text::index_of(line, '\n') as int;
    let j = crate::text::index_of(whole, '\n') as int;
    if i < at {
        assert(line[i] != '\n');
    }
    if j < at {
        assert(whole[j] == line[j]);
        assert(line[j] != '\n');
    }
    if j > at {
        assert(whole[at] == '\n');
    }
    assert(line.take(at) =~= line);
    assert(whole.take(at) =~= line);
    assert(whole.skip(at + 1) =~= rest);
}

/// Every process gets a group of its own: its directory is named after the process, below the group
/// it is in, and two processes never share one.
pub proof fn law_every_process_has_its_own_group(group: Seq<char>, pid: u32, other: u32)
    ensures
        own_group_path(group, pid) == "/sys/fs/cgroup"@ + group + "/noesar-sandbox-"@
            + crate::number::decimal(pid as nat),
        own_group_path(group, pid) == own_group_path(group, other) ==> pid == other,
{
    let head = "/sys/fs/cgroup"@ + group + "/noesar-sandbox-"@;
    let mine = crate::number::decimal(pid as nat);
    let theirs = crate::number::decimal(other as nat);
    if own_group_path(group, pid) == own_group_path(group, other) {
        assert((head + mine).skip(head.len() as int) =~= mine);
        assert((head + theirs).skip(head.len() as int) =~= theirs);
        crate::number::lemma_decimal_is_numeral(pid as nat);
        crate::number::lemma_decimal_is_numeral(other as nat);
    }
}

} // verus!
