//! The names behind a write that is never seen half done.
//!
//! A file is written next to its target under a temporary name, flushed, and
//! then renamed over the target. What is here is where that temporary file
//! goes and what it is called.

use crate::path::{
    below, file_name_of, parent_of, same_places, NotePath, PartView, PathPart, PathView,
};
use crate::text::{decimal, digit, owned, push_decimal};
use vstd::prelude::*;

verus! {

/// The current directory.
pub open spec fn here() -> PathView {
    PathView { absolute: false, parts: seq![PartView::Here], text: seq!['.'] }
}

/// The directory a temporary file must live in: the target's own, so that the
/// rename stays within it. A bare file name means the current directory.
pub open spec fn staging_dir(path: PathView) -> PathView {
    match parent_of(path) {
        Some(parent) => if parent.parts.len() > 0 {
            parent
        } else {
            here()
        },
        None => here(),
    }
}

/// The directory a temporary file must live in.
pub fn parent_dir(path: &NotePath) -> (r: NotePath)
    ensures
        r@ == staging_dir(path@),
{
    if let Some(parent) = path.parent() {
        proof {
            assert(parent@.parts.len() == parent.parts@.len());
        }
        if parent.parts.len() > 0 {
            return parent;
        }
    }
    let mut parts: Vec<PathPart> = Vec::new();
    parts.push(PathPart::Here);
    let r = NotePath { absolute: false, parts, shown: owned(".") };
    proof {
        reveal_strlit(".");
        assert(r@.parts =~= here().parts);
        assert(r@.text =~= here().text);
    }
    r
}

/// The name of a temporary file: the target's, hidden, with the process, a
/// count and the time on it.
pub open spec fn temp_name(path: PathView, pid: nat, seq: nat, nanos: nat) -> Seq<char> {
    let stem = match file_name_of(path) {
        Some(name) => name,
        None => "sotone"@,
    };
    "."@ + stem + "."@ + decimal(pid) + "."@ + decimal(seq) + "."@ + decimal(nanos) + ".tmp"@
}

/// The name of a temporary file. `seq` counts the files this process has
/// staged.
pub fn temp_file_name(path: &NotePath, pid: u32, seq: u64, nanos: u64) -> (r: String)
    ensures
        r@ == temp_name(path@, pid as nat, seq as nat, nanos as nat),
{
    let stem = match path.file_name() {
        Some(name) => name,
        None => owned("sotone"),
    };
    let mut out = owned(".");
    out.push_str(&stem);
    out.push_str(".");
    push_decimal(&mut out, pid as u64);
    out.push_str(".");
    push_decimal(&mut out, seq);
    out.push_str(".");
    push_decimal(&mut out, nanos);
    out.push_str(".tmp");
    proof {
        assert(out@ =~= temp_name(path@, pid as nat, seq as nat, nanos as nat));
    }
    out
}

/// Where a write to `path` is staged.
pub fn stage_path(path: &NotePath, pid: u32, seq: u64, nanos: u64) -> (r: NotePath)
    ensures
        r@ == below(
            staging_dir(path@),
            temp_name(path@, pid as nat, seq as nat, nanos as nat),
        ),
{
    let dir = parent_dir(path);
    let name = temp_file_name(path, pid, seq, nanos);
    dir.child(&name)
}

// ---------------------------------------------------------------------------
// Writing
// ---------------------------------------------------------------------------

/// Where a write stands. Each state names the one thing to do next.
#[derive(Debug, Clone, Copy, PartialEq, Eq, Structural)]
pub enum WriteStep {
    /// Make sure that the directory is there.
    MakeDir,
    /// Create the temporary file, which must not be there yet.
    CreateTemp,
    /// Write the bytes to the temporary file, and flush it to disk.
    FillTemp,
    /// Rename the temporary file over the target.
    Swap,
    /// Flush the directory, as far as the platform can.
    SyncDir,
    /// Remove the temporary file, as far as that is possible.
    RemoveTemp,
    /// The target is the new file.
    Done,
    /// The target is the old file; the failure that got here is reported.
    Failed,
}

/// The next step of a write, once the last one went well or did not. A failure
/// leaves the target alone, and takes the temporary file away again if this
/// write made it.
pub open spec fn next_step(step: WriteStep, ok: bool) -> WriteStep {
    match step {
        WriteStep::MakeDir => if ok {
            WriteStep::CreateTemp
        } else {
            WriteStep::Failed
        },
        WriteStep::CreateTemp => if ok {
            WriteStep::FillTemp
        } else {
            WriteStep::Failed
        },
        WriteStep::FillTemp => if ok {
            WriteStep::Swap
        } else {
            WriteStep::RemoveTemp
        },
        WriteStep::Swap => if ok {
            WriteStep::SyncDir
        } else {
            WriteStep::RemoveTemp
        },
        WriteStep::SyncDir => WriteStep::Done,
        WriteStep::RemoveTemp => WriteStep::Failed,
        WriteStep::Done => WriteStep::Done,
        WriteStep::Failed => WriteStep::Failed,
    }
}

/// The next step of a write, once the last one went well or did not.
pub fn write_atomic(step: WriteStep, ok: bool) -> (r: WriteStep)
    ensures
        r == next_step(step, ok),
{
    match step {
        WriteStep::MakeDir => if ok {
            WriteStep::CreateTemp
        } else {
            WriteStep::Failed
        },
        WriteStep::CreateTemp => if ok {
            WriteStep::FillTemp
        } else {
            WriteStep::Failed
        },
        WriteStep::FillTemp => if ok {
            WriteStep::Swap
        } else {
            WriteStep::RemoveTemp
        },
        WriteStep::Swap => if ok {
            WriteStep::SyncDir
        } else {
            WriteStep::RemoveTemp
        },
        WriteStep::SyncDir => WriteStep::Done,
        WriteStep::RemoveTemp => WriteStep::Failed,
        WriteStep::Done => WriteStep::Done,
        WriteStep::Failed => WriteStep::Failed,
    }
}

/// Where a write stands after its first `n` steps went as `oks` says.
pub open spec fn steps_taken(oks: Seq<bool>, n: int) -> WriteStep
    decreases n,
{
    if n <= 0 {
        WriteStep::MakeDir
    } else {
        next_step(steps_taken(oks, n - 1), oks[n - 1])
    }
}

// ---------------------------------------------------------------------------
// Laws
// ---------------------------------------------------------------------------

proof fn lemma_digit(a: int, b: int)
    requires
        0 <= a < 10,
        0 <= b < 10,
        digit(a) == digit(b),
    ensures
        a == b,
{
}

proof fn lemma_decimal(n: nat)
    ensures
        decimal(n).len() > 0,
        forall|i: int| 0 <= i < decimal(n).len() ==> #[trigger] decimal(n)[i] != '.',
    decreases n,
{
    if n >= 10 {
        lemma_decimal(n / 10);
    }
}

proof fn lemma_decimal_injective(a: nat, b: nat)
    requires
        decimal(a) == decimal(b),
    ensures
        a == b,
    decreases a,
{
    lemma_decimal(a / 10);
    lemma_decimal(b / 10);
    if a < 10 && b < 10 {
        assert(decimal(a)[0] == digit(a as int));
        assert(decimal(b)[0] == digit(b as int));
        lemma_digit(a as int, b as int);
    } else if a < 10 {
        assert(decimal(a).len() == 1);
        assert(decimal(b).len() >= 2);
    } else if b < 10 {
        assert(decimal(b).len() == 1);
        assert(decimal(a).len() >= 2);
    } else {
        let x = decimal(a / 10);
        let y = decimal(b / 10);
        assert(decimal(a).last() == digit((a % 10) as int));
        assert(decimal(b).last() == digit((b % 10) as int));
        lemma_digit((a % 10) as int, (b % 10) as int);
        assert(decimal(a).drop_last() =~= x);
        assert(decimal(b).drop_last() =~= y);
        lemma_decimal_injective(a / 10, b / 10);
    }
}

/// Two runs without a dot, each followed by one, are the same when the texts
/// they stand in front of are.
proof fn lemma_cut_at_dot(a: Seq<char>, b: Seq<char>, rest_a: Seq<char>, rest_b: Seq<char>)
    requires
        forall|i: int| 0 <= i < a.len() ==> #[trigger] a[i] != '.',
        forall|i: int| 0 <= i < b.len() ==> #[trigger] b[i] != '.',
        a + rest_a == b + rest_b,
        rest_a.len() > 0 && rest_a[0] == '.',
        rest_b.len() > 0 && rest_b[0] == '.',
    ensures
        a == b,
{
    let x = a + rest_a;
    let y = b + rest_b;
    assert(x[a.len() as int] == '.');
    assert(y[b.len() as int] == '.');
    if a.len() < b.len() {
        assert(y[a.len() as int] == b[a.len() as int]);
    } else if b.len() < a.len() {
        assert(x[b.len() as int] == a[b.len() as int]);
    }
    assert(a.len() == b.len());
    assert forall|i: int| 0 <= i < a.len() implies a[i] == b[i] by {
        assert(x[i] == a[i]);
        assert(y[i] == b[i]);
    }
    assert(a =~= b);
}

/// Two files staged by one process never share a name, even in the same
/// instant: their counts differ.
pub proof fn temp_names_never_collide(
    path: PathView,
    pid: nat,
    seq_a: nat,
    nanos_a: nat,
    seq_b: nat,
    nanos_b: nat,
)
    requires
        seq_a != seq_b,
    ensures
        temp_name(path, pid, seq_a, nanos_a) != temp_name(path, pid, seq_b, nanos_b),
{
    let a = temp_name(path, pid, seq_a, nanos_a);
    let b = temp_name(path, pid, seq_b, nanos_b);
    if a == b {
        reveal_strlit(".");
        let stem = match file_name_of(path) {
            Some(name) => name,
            None => "sotone"@,
        };
        let head = "."@ + stem + "."@ + decimal(pid) + "."@;
        let rest_a = "."@ + decimal(nanos_a) + ".tmp"@;
        let rest_b = "."@ + decimal(nanos_b) + ".tmp"@;
        assert(a =~= head + (decimal(seq_a) + rest_a));
        assert(b =~= head + (decimal(seq_b) + rest_b));
        assert((decimal(seq_a) + rest_a) =~= a.skip(head.len() as int));
        assert((decimal(seq_b) + rest_b) =~= b.skip(head.len() as int));
        lemma_decimal(seq_a);
        lemma_decimal(seq_b);
        assert(rest_a[0] == '.');
        assert(rest_b[0] == '.');
        lemma_cut_at_dot(decimal(seq_a), decimal(seq_b), rest_a, rest_b);
        lemma_decimal_injective(seq_a, seq_b);
    }
}

/// A staged file lies in its target's directory, so that the rename over the
/// target is within one directory.
pub proof fn a_staged_file_is_a_sibling(path: PathView, pid: nat, seq: nat, nanos: nat)
    requires
        parent_of(path) matches Some(parent) && parent.parts.len() > 0,
    ensures
        same_places(
            parent_of(below(staging_dir(path), temp_name(path, pid, seq, nanos))),
            parent_of(path),
        ),
{
    let dir = staging_dir(path);
    let staged = below(dir, temp_name(path, pid, seq, nanos));
    assert(staged.parts.drop_last() =~= dir.parts);
}

proof fn lemma_settled_write(oks: Seq<bool>, n: int)
    ensures
        n == 1 ==> steps_taken(oks, n) == (if oks[0] {
            WriteStep::CreateTemp
        } else {
            WriteStep::Failed
        }),
        n == 2 ==> steps_taken(oks, n) == (if oks[0] && oks[1] {
            WriteStep::FillTemp
        } else {
            WriteStep::Failed
        }),
        n == 3 ==> steps_taken(oks, n) == (if oks[0] && oks[1] {
            if oks[2] {
                WriteStep::Swap
            } else {
                WriteStep::RemoveTemp
            }
        } else {
            WriteStep::Failed
        }),
        n >= 4 ==> steps_taken(oks, n) == WriteStep::SyncDir || steps_taken(oks, n)
            == WriteStep::RemoveTemp || steps_taken(oks, n) == WriteStep::Done || steps_taken(oks, n)
            == WriteStep::Failed,
    decreases n,
{
    if n > 0 {
        lemma_settled_write(oks, n - 1);
    }
}

/// The target is only ever swapped once the new file is complete: the directory
/// was there, the temporary file was created, and it was written and flushed.
pub proof fn a_swap_follows_a_complete_file(oks: Seq<bool>, n: int)
    requires
        n >= 0,
        steps_taken(oks, n) == WriteStep::Swap,
    ensures
        n == 3,
        oks[0] && oks[1] && oks[2],
{
    lemma_settled_write(oks, n);
}

/// Only a temporary file that this write created is ever removed, and only
/// when the write failed.
pub proof fn only_an_own_temp_is_removed(oks: Seq<bool>, n: int)
    requires
        n >= 0,
        steps_taken(oks, n) == WriteStep::RemoveTemp,
    ensures
        oks[0] && oks[1],
        !oks[2] || !oks[3],
    decreases n,
{
    lemma_settled_write(oks, n);
    lemma_settled_write(oks, n - 1);
    lemma_settled_write(oks, n - 2);
    if n >= 5 {
        lemma_settled_write(oks, n - 1);
        assert(steps_taken(oks, n) == next_step(steps_taken(oks, n - 1), oks[n - 1]));
    } else if n == 4 {
        lemma_settled_write(oks, 3);
    }
}

/// A write is over after five steps, one way or the other, and it succeeded
/// exactly when everything up to the swap did.
pub proof fn a_write_ends(oks: Seq<bool>)
    ensures
        steps_taken(oks, 5) == (if oks[0] && oks[1] && oks[2] && oks[3] {
            WriteStep::Done
        } else {
            WriteStep::Failed
        }),
{
    reveal_with_fuel(steps_taken, 6);
}

/// A temporary file is hidden, carries the name of its target, and says that it is
/// temporary. It lies in the current directory where its target is a bare name.
pub proof fn a_temporary_file_is_hidden(path: PathView, pid: nat, seq: nat, nanos: nat)
    ensures
        ({
            let name = temp_name(path, pid, seq, nanos);
            &&& name.len() > 5
            &&& name[0] == '.'
            &&& name.subrange(name.len() - 4, name.len() as int) == seq!['.', 't', 'm', 'p']
            &&& file_name_of(path) matches Some(stem) ==> stem.len() + 5 < name.len()
                && name.subrange(1, 1 + stem.len() as int) == stem
        }),
        (parent_of(path) matches Some(dir) ==> dir.parts.len() == 0) ==> staging_dir(path).parts
            == seq![PartView::Here] && !staging_dir(path).absolute,
        (parent_of(path) matches Some(dir) && dir.parts.len() > 0) ==> Some(staging_dir(path))
            == parent_of(path),
{
    reveal_strlit(".");
    reveal_strlit(".tmp");
    let stem = match file_name_of(path) {
        Some(name) => name,
        None => "sotone"@,
    };
    let name = temp_name(path, pid, seq, nanos);
    lemma_decimal(pid);
    assert(name.subrange(name.len() - 4, name.len() as int) =~= seq!['.', 't', 'm', 'p']);
    assert(name.subrange(1, 1 + stem.len() as int) =~= stem);
}

} // verus!
