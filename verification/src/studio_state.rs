//! Small pieces of studio state: the console log, which keeps the latest
//! lines, and the list of recently opened designs.

use vstd::prelude::*;
use vstd::string::StringExecFns;

use crate::text::texts_view;

verus! {

/// How many console lines are kept.
pub const CONSOLE_MAX_LINES: usize = 250;

/// How many recent designs are remembered.
pub const RECENT_DESIGNS_MAX: usize = 24;

/// The studio console: its lines, oldest first.
pub struct ConsoleLog {
    pub lines: Vec<String>,
}

/// The lines after appending `msg`: the latest `CONSOLE_MAX_LINES` of them.
pub open spec fn console_after(lines: Seq<Seq<char>>, msg: Seq<char>) -> Seq<Seq<char>> {
    let all = lines.push(msg);
    if all.len() > CONSOLE_MAX_LINES {
        all.subrange(all.len() - CONSOLE_MAX_LINES, all.len() as int)
    } else {
        all
    }
}

impl ConsoleLog {
    /// An empty console.
    pub fn new() -> (c: Self)
        ensures
            c.lines@.len() == 0,
    {
        ConsoleLog { lines: Vec::new() }
    }

    /// Appends a line, dropping the oldest lines beyond the limit.
    pub fn log_console(&mut self, msg: String)
        ensures
            texts_view(final(self).lines@) == console_after(texts_view(old(self).lines@), msg@),
    {
        let ghost all = texts_view(self.lines@).push(msg@);
        self.lines.push(msg);
        assert(texts_view(self.lines@) =~= all);
        if self.lines.len() > CONSOLE_MAX_LINES {
            let drain = self.lines.len() - CONSOLE_MAX_LINES;
            let tail = self.lines.split_off(drain);
            self.lines = tail;
            assert(texts_view(self.lines@) =~= all.subrange(drain as int, all.len() as int));
        }
    }

    /// Records an error: logged as `[error] ` and the message, which is
    /// also returned as the error to show.
    pub fn set_err(&mut self, message: &str) -> (shown: String)
        ensures
            shown@ == message@,
            texts_view(final(self).lines@) == console_after(texts_view(old(self).lines@), "[error] "@ + message@),
    {
        let mut line = String::from_str("[error] ");
        line.append(message);
        self.log_console(line);
        String::from_str(message)
    }
}

/// The recently opened designs, most recent first.
pub struct RecentDesigns {
    pub ids: Vec<u128>,
}

/// The list without `id`, in order.
pub open spec fn without(ids: Seq<u128>, id: u128) -> Seq<u128>
    decreases ids.len(),
{
    if ids.len() == 0 {
        ids
    } else if ids.last() == id {
        without(ids.drop_last(), id)
    } else {
        without(ids.drop_last(), id).push(ids.last())
    }
}

/// The list after opening `id`: `id` first, then the others in their order
/// without it, at most `RECENT_DESIGNS_MAX` in all.
pub open spec fn recent_after(ids: Seq<u128>, id: u128) -> Seq<u128> {
    let all = seq![id] + without(ids, id);
    if all.len() > RECENT_DESIGNS_MAX {
        all.subrange(0, RECENT_DESIGNS_MAX as int)
    } else {
        all
    }
}

impl RecentDesigns {
    /// No recent designs.
    pub fn new() -> (r: Self)
        ensures
            r.ids@.len() == 0,
    {
        RecentDesigns { ids: Vec::new() }
    }

    /// Moves (or adds) a design to the front of the list.
    pub fn push_recent_design(&mut self, id: u128)
        ensures
            final(self).ids@ == recent_after(old(self).ids@, id),
    {
        let ghost old_ids = self.ids@;
        let mut kept: Vec<u128> = Vec::new();
        kept.push(id);
        let mut i: usize = 0;
        while i < self.ids.len()
            invariant
                old_ids == self.ids@,
                i <= old_ids.len(),
                kept@ == seq![id] + without(old_ids.subrange(0, i as int), id),
            decreases old_ids.len() - i,
        {
            proof {
                assert(old_ids.subrange(0, i + 1).drop_last() =~= old_ids.subrange(0, i as int));
                assert(old_ids.subrange(0, i + 1).last() == old_ids[i as int]);
            }
            let x = self.ids[i];
            if x != id {
                kept.push(x);
                assert(kept@ =~= seq![id] + without(old_ids.subrange(0, i + 1), id));
            }
            i = i + 1;
        }
        proof {
            assert(old_ids.subrange(0, old_ids.len() as int) =~= old_ids);
        }
        if kept.len() > RECENT_DESIGNS_MAX {
            kept.truncate(RECENT_DESIGNS_MAX);
        }
        self.ids = kept;
    }
}

/// What `without` keeps: items of the list other than `id`, each as often
/// as before (so none twice when none was).
proof fn lemma_without(ids: Seq<u128>, id: u128)
    requires
        ids.no_duplicates(),
    ensures
        without(ids, id).no_duplicates(),
        forall|a: int| 0 <= a < without(ids, id).len() ==> #[trigger] without(ids, id)[a] != id && ids.contains(
            without(ids, id)[a],
        ),
        without(ids, id).len() <= ids.len(),
    decreases ids.len(),
{
    if ids.len() > 0 {
        let init = ids.drop_last();
        assert forall|a: int, b: int| 0 <= a < b < init.len() implies init[a] != init[b] by {
            assert(init[a] == ids[a] && init[b] == ids[b]);
        }
        lemma_without(init, id);
        let w = without(init, id);
        assert forall|a: int| 0 <= a < w.len() implies ids.contains(#[trigger] w[a]) by {
            assert(init.contains(w[a]));
            let j = choose|j: int| 0 <= j < init.len() && init[j] == w[a];
            assert(ids[j] == w[a]);
        }
        if ids.last() != id {
            assert forall|a: int| 0 <= a < w.len() implies #[trigger] w[a] != ids.last() by {
                assert(init.contains(w[a]));
                let j = choose|j: int| 0 <= j < init.len() && init[j] == w[a];
                assert(ids[j] == w[a]);
            }
            let g = w.push(ids.last());
            assert(ids[ids.len() - 1] == ids.last());
            assert forall|a: int, b: int| 0 <= a < b < g.len() implies g[a] != g[b] by {
                if b == w.len() {
                    assert(g[a] == w[a]);
                } else {
                    assert(g[a] == w[a] && g[b] == w[b]);
                }
            }
        }
    }
}

/// The front of the recent list is the design just opened, no design is
/// listed twice (when none was before), and the list stays within its
/// limit.
pub proof fn law_recent_front_and_unique(ids: Seq<u128>, id: u128)
    requires
        ids.no_duplicates(),
    ensures
        recent_after(ids, id)[0] == id,
        recent_after(ids, id).no_duplicates(),
        recent_after(ids, id).len() <= RECENT_DESIGNS_MAX,
{
    lemma_without(ids, id);
    let w = without(ids, id);
    let all = seq![id] + w;
    assert forall|a: int, b: int| 0 <= a < b < all.len() implies all[a] != all[b] by {
        if a == 0 {
            assert(all[b] == w[b - 1]);
        } else {
            assert(all[a] == w[a - 1] && all[b] == w[b - 1]);
        }
    }
    let r = recent_after(ids, id);
    assert forall|a: int, b: int| 0 <= a < b < r.len() implies r[a] != r[b] by {
        assert(r[a] == all[a] && r[b] == all[b]);
    }
}

/// The console keeps at most its limit of lines, and the line just logged
/// is the last one.
pub proof fn law_console_bounded(lines: Seq<Seq<char>>, msg: Seq<char>)
    requires
        lines.len() <= CONSOLE_MAX_LINES,
    ensures
        console_after(lines, msg).len() <= CONSOLE_MAX_LINES,
        console_after(lines, msg).last() == msg,
{
}

} // verus!
