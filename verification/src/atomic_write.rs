//! Writing a file whole or not at all: the steps, in what order they are
//! taken and what is done when one of them fails.
//!
//! The bytes go to a temporary file beside the destination, which then takes
//! the destination's place in one step.

use crate::text::{decimal, decimal_text, is_empty, owned};
use vstd::prelude::*;
use vstd::string::StringExecFns;

verus! {

/// How often a free name for the temporary file is looked for.
pub const ATTEMPTS: u32 = 32;

/// The name of a temporary file for `name`.
pub open spec fn temp_name_of(name: Seq<char>, pid: u32, seq: u64) -> Seq<char> {
    "."@ + name + ".tmp"@ + decimal(pid as nat) + "-"@ + decimal(seq as nat)
}

pub fn temp_name(name: &str, pid: u32, seq: u64) -> (out: String)
    ensures
        out@ == temp_name_of(name@, pid, seq),
{
    let mut out: String = owned(".");
    out.append(name);
    out.append(temp_ending(pid, seq).as_str());
    assert(out@ =~= temp_name_of(name@, pid, seq));
    out
}

/// What stands behind the name of a destination in that of its temporary file.
pub fn temp_ending(pid: u32, seq: u64) -> (out: String)
    ensures
        out@ == ".tmp"@ + decimal(pid as nat) + "-"@ + decimal(seq as nat),
{
    let mut out: String = owned(".tmp");
    out.append(decimal_text(pid as u64).as_str());
    out.append("-");
    out.append(decimal_text(seq).as_str());
    out
}

/// The directory of a path whose parent is `parent`: a path without one lies
/// in the current directory.
pub fn directory(parent: Option<&str>) -> (dir: String)
    ensures
        dir@ == match parent {
            Some(p) => if p@.len() > 0 {
                p@
            } else {
                "."@
            },
            None => "."@,
        },
{
    match parent {
        Some(p) => if is_empty(p) {
            owned(".")
        } else {
            owned(p)
        },
        None => owned("."),
    }
}

/// How far a write has come.
#[derive(Clone, Copy, Debug, PartialEq, Eq, Structural)]
pub enum Stage {
    /// A temporary file is to be created; so many names were taken already.
    Opening { taken: u32 },
    Writing,
    Syncing,
    Renaming,
    /// The write failed and the temporary file is to go.
    Removing,
    Finished(WriteEnd),
}

#[derive(Clone, Copy, Debug, PartialEq, Eq, Structural)]
pub enum WriteEnd {
    /// The destination holds the new bytes.
    Replaced,
    /// Some step failed, and the destination is what it was.
    Failed,
    /// Every name that was tried was taken.
    NoFreeName,
}

/// What a step came to.
#[derive(Clone, Copy, Debug, PartialEq, Eq, Structural)]
pub enum Reply {
    Done,
    /// A file of that name exists already.
    Exists,
    Failed,
}

/// The stage after a step.
pub open spec fn stage_after(stage: Stage, reply: Reply) -> Stage {
    match stage {
        Stage::Opening { taken } => match reply {
            Reply::Done => Stage::Writing,
            Reply::Exists => if taken + 1 < ATTEMPTS {
                Stage::Opening { taken: (taken + 1) as u32 }
            } else {
                Stage::Finished(WriteEnd::NoFreeName)
            },
            Reply::Failed => Stage::Finished(WriteEnd::Failed),
        },
        Stage::Writing => if reply == Reply::Done {
            Stage::Syncing
        } else {
            Stage::Removing
        },
        Stage::Syncing => if reply == Reply::Done {
            Stage::Renaming
        } else {
            Stage::Removing
        },
        Stage::Renaming => if reply == Reply::Done {
            Stage::Finished(WriteEnd::Replaced)
        } else {
            Stage::Removing
        },
        Stage::Removing => Stage::Finished(WriteEnd::Failed),
        Stage::Finished(end) => Stage::Finished(end),
    }
}

impl Stage {
    pub open spec fn wf(self) -> bool {
        self matches Stage::Opening { taken } ==> taken < ATTEMPTS
    }

    /// How many steps are left at most.
    pub open spec fn steps_left(self) -> nat {
        match self {
            Stage::Opening { taken } => (4 + ATTEMPTS - taken) as nat,
            Stage::Writing => 4,
            Stage::Syncing => 3,
            Stage::Renaming => 2,
            Stage::Removing => 1,
            Stage::Finished(_) => 0,
        }
    }

    pub fn start() -> (stage: Stage)
        ensures
            stage == (Stage::Opening { taken: 0 }),
            stage.wf(),
    {
        Stage::Opening { taken: 0 }
    }

    /// Where the write stands once its step came to `reply`.
    pub fn after(self, reply: Reply) -> (next: Stage)
        requires
            self.wf(),
        ensures
            next == stage_after(self, reply),
            next.wf(),
            self.steps_left() > 0 ==> next.steps_left() < self.steps_left(),
    {
        match self {
            Stage::Opening { taken } => match reply {
                Reply::Done => Stage::Writing,
                Reply::Exists => if taken + 1 < ATTEMPTS {
                    Stage::Opening { taken: taken + 1 }
                } else {
                    Stage::Finished(WriteEnd::NoFreeName)
                },
                Reply::Failed => Stage::Finished(WriteEnd::Failed),
            },
            Stage::Writing => match reply {
                Reply::Done => Stage::Syncing,
                _ => Stage::Removing,
            },
            Stage::Syncing => match reply {
                Reply::Done => Stage::Renaming,
                _ => Stage::Removing,
            },
            Stage::Renaming => match reply {
                Reply::Done => Stage::Finished(WriteEnd::Replaced),
                _ => Stage::Removing,
            },
            Stage::Removing => Stage::Finished(WriteEnd::Failed),
            Stage::Finished(end) => Stage::Finished(end),
        }
    }
}

/// What the two names hold: the destination, and the temporary file.
pub struct Files {
    pub dest: Option<Seq<u8>>,
    pub temp: Option<Seq<u8>>,
}

/// What a step may do to the files. A write that fails may leave any part of
/// the bytes behind.
pub open spec fn performs(
    stage: Stage,
    reply: Reply,
    content: Seq<u8>,
    before: Files,
    after: Files,
) -> bool {
    match stage {
        Stage::Opening { .. } => if reply == Reply::Done {
            after == (Files { dest: before.dest, temp: Some(Seq::empty()) })
        } else {
            after == before
        },
        Stage::Writing => if reply == Reply::Done {
            after == (Files { dest: before.dest, temp: Some(content) })
        } else {
            after.dest == before.dest && after.temp is Some
        },
        Stage::Syncing => after == before,
        Stage::Renaming => if reply == Reply::Done {
            after == (Files { dest: before.temp, temp: None })
        } else {
            after == before
        },
        Stage::Removing => if reply == Reply::Done {
            after == (Files { dest: before.dest, temp: None })
        } else {
            after == before
        },
        Stage::Finished(_) => after == before,
    }
}

/// What the files hold at each stage of a write of `content` over `old_dest`.
pub open spec fn holds_at(
    stage: Stage,
    files: Files,
    old_dest: Option<Seq<u8>>,
    content: Seq<u8>,
) -> bool {
    match stage {
        Stage::Opening { .. } => files.dest == old_dest && files.temp is None,
        Stage::Writing | Stage::Removing => files.dest == old_dest && files.temp is Some,
        Stage::Syncing | Stage::Renaming => files.dest == old_dest && files.temp == Some(content),
        Stage::Finished(end) => files.temp is None && files.dest == if end == WriteEnd::Replaced {
            Some(content)
        } else {
            old_dest
        },
    }
}

/// Whichever steps fail, the destination is the old file or the whole new
/// one: the new one exactly where the write ends well, and then and in every
/// other case no temporary file is left, as long as it can be removed.
pub proof fn law_destination_is_old_or_whole(
    stage: Stage,
    reply: Reply,
    before: Files,
    after: Files,
    old_dest: Option<Seq<u8>>,
    content: Seq<u8>,
)
    requires
        stage.wf(),
        holds_at(stage, before, old_dest, content),
        performs(stage, reply, content, before, after),
        stage == Stage::Removing ==> reply == Reply::Done,
    ensures
        holds_at(stage_after(stage, reply), after, old_dest, content),
{
}

/// The order of the steps: the destination is replaced only by a rename that
/// succeeds, a rename comes only after the bytes were synced, and they are
/// synced only after they were written. Whatever fails once the temporary file
/// is there, the next step is to remove it. A taken name is tried again with
/// another one, 32 times in all.
pub proof fn law_the_steps_come_in_order(stage: Stage, reply: Reply)
    requires
        stage.wf(),
    ensures
        stage_after(stage, reply) == Stage::Finished(WriteEnd::Replaced) <==> (stage
            == Stage::Renaming && reply == Reply::Done) || stage == Stage::Finished(
            WriteEnd::Replaced,
        ),
        stage_after(stage, reply) == Stage::Renaming <==> stage == Stage::Syncing && reply
            == Reply::Done,
        stage_after(stage, reply) == Stage::Syncing <==> stage == Stage::Writing && reply
            == Reply::Done,
        stage_after(stage, reply) == Stage::Writing <==> stage is Opening && reply == Reply::Done,
        stage_after(stage, reply) == Stage::Removing <==> (stage == Stage::Writing || stage
            == Stage::Syncing || stage == Stage::Renaming) && reply != Reply::Done,
        stage_after(stage, reply) == Stage::Finished(WriteEnd::NoFreeName) <==> (stage
            == (Stage::Opening { taken: 31 }) && reply == Reply::Exists) || stage
            == Stage::Finished(WriteEnd::NoFreeName),
        stage matches Stage::Opening { taken } ==> reply == Reply::Exists && taken < 31
            ==> stage_after(stage, reply) == (Stage::Opening { taken: (taken + 1) as u32 }),
        stage is Opening && reply == Reply::Failed ==> stage_after(stage, reply)
            == Stage::Finished(WriteEnd::Failed),
        stage == Stage::Removing ==> stage_after(stage, reply) == Stage::Finished(WriteEnd::Failed),
{
}

/// Temporary files of one destination have names of their own: other processes
/// and other attempts have other names, and none is that of the destination.
pub proof fn law_temporary_names_differ(name: Seq<char>, p1: u32, s1: u64, p2: u32, s2: u64)
    ensures
        temp_name_of(name, p1, s1) == temp_name_of(name, p2, s2) ==> p1 == p2 && s1 == s2,
        temp_name_of(name, p1, s1) != name,
        temp_name_of(name, p1, s1).len() > name.len() && temp_name_of(name, p1, s1)[0] == '.'
            && temp_name_of(name, p1, s1).subrange(1, name.len() as int + 1) == name,
{
    reveal_strlit(".");
    reveal_strlit(".tmp");
    reveal_strlit("-");
    let a = temp_name_of(name, p1, s1);
    let b = temp_name_of(name, p2, s2);
    let n = name.len() as int + 5;
    crate::text::lemma_decimal(p1 as nat);
    crate::text::lemma_decimal(p2 as nat);
    crate::text::lemma_decimal(s1 as nat);
    crate::text::lemma_decimal(s2 as nat);
    let d1 = decimal(p1 as nat);
    let d2 = decimal(p2 as nat);
    assert(a.subrange(1, name.len() as int + 1) =~= name);
    let ta = a.skip(n);
    let tb = b.skip(n);
    assert(ta =~= d1 + seq!['-'] + decimal(s1 as nat));
    assert(tb =~= d2 + seq!['-'] + decimal(s2 as nat));
    crate::text::lemma_run_is(ta, '-', d1.len());
    crate::text::lemma_run_is(tb, '-', d2.len());
    if a == b {
        assert(ta.take(d1.len() as int) =~= d1);
        assert(tb.take(d2.len() as int) =~= d2);
        assert(ta.skip(d1.len() as int + 1) =~= decimal(s1 as nat));
        assert(tb.skip(d2.len() as int + 1) =~= decimal(s2 as nat));
    }
}

} // verus!
