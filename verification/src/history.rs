//! The list of recently opened entries.
use vstd::prelude::*;
use crate::text::str_equal;

verus! {

broadcast use Seq::lemma_filter_push;

/// Identifiers of entries opened through the launcher, newest first.
pub struct History {
    pub recent: Vec<String>,
}

/// The character sequences of a list of strings.
pub open spec fn texts(v: Seq<String>) -> Seq<Seq<char>> {
    v.map_values(|s: String| s@)
}

/// The first `n` elements of `s`, or all of them when there are fewer.
pub open spec fn truncated<A>(s: Seq<A>, n: int) -> Seq<A> {
    if n < s.len() { s.take(n) } else { s }
}

/// The list after opening `id`: `id` first, every earlier occurrence of it
/// removed, and at most `limit` entries kept.
pub open spec fn recorded(recent: Seq<Seq<char>>, id: Seq<char>, limit: nat) -> Seq<Seq<char>> {
    truncated(seq![id] + recent.filter(other_than(id)), limit as int)
}

/// Holds of every identifier but `id`.
pub open spec fn other_than(id: Seq<char>) -> spec_fn(Seq<char>) -> bool {
    |previous: Seq<char>| previous != id
}

impl History {
    pub fn new() -> (r: History)
        ensures
            r.recent@.len() == 0,
    {
        History { recent: Vec::new() }
    }

    /// The history file below the state directory
    /// (`XDG_STATE_HOME`, or `~/.local/state` when it is unset).
    pub fn default_path(state_home: &str) -> (r: String)
        ensures
            r@ == crate::paths::join_path(state_home@, "lapi-launcher/recent.toml"@),
    {
        crate::paths::join(state_home, "lapi-launcher/recent.toml")
    }

    /// Records that `id` was opened.
    pub fn record(&mut self, id: &str, limit: usize)
        ensures
            texts(final(self).recent@) == recorded(texts(old(self).recent@), id@, limit as nat),
    {
        let ghost pred = other_than(id@);
        let ghost before = texts(self.recent@);
        let mut kept: Vec<String> = Vec::new();
        kept.push(crate::text::owned(id));
        let mut i: usize = 0;
        while i < self.recent.len()
            invariant
                0 <= i <= self.recent@.len(),
                before == texts(self.recent@),
                pred == other_than(id@),
                texts(kept@) == seq![id@] + before.take(i as int).filter(pred),
            decreases self.recent@.len() - i,
        {
            let ghost old_kept = texts(kept@);
            assert(before.take(i + 1) =~= before.take(i as int).push(before[i as int]));
            proof { before.take(i as int).lemma_filter_push(before[i as int], pred); }
            assert(before[i as int] == self.recent@[i as int]@);
            let same = str_equal(self.recent[i].as_str(), id);
            if !same {
                kept.push(self.recent[i].clone());
                assert(texts(kept@) =~= old_kept.push(before[i as int]));
                assert(texts(kept@) =~= seq![id@] + before.take(i + 1).filter(pred));
            } else {
                assert(texts(kept@) =~= seq![id@] + before.take(i + 1).filter(pred));
            }
            i += 1;
        }
        assert(before.take(i as int) =~= before);
        kept.truncate(limit);
        proof {
            let full = seq![id@] + before.filter(pred);
            if (limit as int) < full.len() {
                assert(texts(kept@) =~= full.take(limit as int));
            } else {
                assert(texts(kept@) =~= full);
            }
        }
        self.recent = kept;
    }
}

} // verus!
