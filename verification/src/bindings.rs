//! The binding table: an ordered, immutable collection of key bindings,
//! together with the prefix-reachability relation that drives resolution.

use vstd::prelude::*;

verus! {

/// One entry of the menu: the key sequence that selects it, the text emitted
/// when it resolves, and a free-form description shown beside it.
#[derive(Debug, PartialEq, Eq)]
pub struct Binding {
    pub key_sequence: Vec<char>,
    pub output: Vec<char>,
    pub description: Vec<char>,
}

/// The mathematical image of a `Binding`: three character sequences.
pub struct BindingModel {
    pub key_sequence: Seq<char>,
    pub output: Seq<char>,
    pub description: Seq<char>,
}

impl View for Binding {
    type V = BindingModel;

    open spec fn view(&self) -> BindingModel {
        BindingModel {
            key_sequence: self.key_sequence@,
            output: self.output@,
            description: self.description@,
        }
    }
}

impl Binding {
    /// Builds a binding; key sequences are never empty in a loaded table.
    pub fn new(key_sequence: Vec<char>, output: Vec<char>, description: Vec<char>) -> (b: Binding)
        requires
            key_sequence@.len() > 0,
        ensures
            b@.key_sequence == key_sequence@,
            b@.output == output@,
            b@.description == description@,
    {
        Binding { key_sequence, output, description }
    }

    /// An explicit copy whose model is the same as the original's.
    pub fn duplicate(&self) -> (b: Binding)
        ensures
            b@ == self@,
    {
        Binding {
            key_sequence: copy_chars(&self.key_sequence),
            output: copy_chars(&self.output),
            description: copy_chars(&self.description),
        }
    }
}

/// Copies a character vector, element by element in the model.
pub fn copy_chars(v: &Vec<char>) -> (r: Vec<char>)
    ensures
        r@ == v@,
{
    let r = v.clone();
    proof {
        assert(r@ =~= v@);
    }
    r
}

/// Decides whether `pre` is an initial segment of `s`.
pub fn is_char_prefix(pre: &Vec<char>, s: &Vec<char>) -> (r: bool)
    ensures
        r == pre@.is_prefix_of(s@),
{
    if pre.len() > s.len() {
        return false;
    }
    let ghost sub = s@.subrange(0, pre@.len() as int);
    let mut i: usize = 0;
    while i < pre.len()
        invariant
            i <= pre@.len(),
            pre@.len() <= s@.len(),
            sub == s@.subrange(0, pre@.len() as int),
            forall|j: int| 0 <= j < i ==> pre@[j] == s@[j],
        decreases pre@.len() - i,
    {
        if pre[i] != s[i] {
            proof {
                assert(sub[i as int] == s@[i as int]);
            }
            return false;
        }
        i += 1;
    }
    proof {
        assert(pre@ =~= sub);
    }
    true
}

/// Decides whether two character vectors hold the same characters.
pub fn chars_equal(a: &Vec<char>, b: &Vec<char>) -> (r: bool)
    ensures
        r == (a@ == b@),
{
    if a.len() != b.len() {
        return false;
    }
    let mut i: usize = 0;
    while i < a.len()
        invariant
            i <= a@.len(),
            a@.len() == b@.len(),
            forall|j: int| 0 <= j < i ==> a@[j] == b@[j],
        decreases a@.len() - i,
    {
        if a[i] != b[i] {
            return false;
        }
        i += 1;
    }
    proof {
        assert(a@ =~= b@);
    }
    true
}

/// Every key sequence in the table is non-empty.
pub open spec fn table_wf(t: Seq<BindingModel>) -> bool {
    forall|i: int| 0 <= i < t.len() ==> #[trigger] t[i].key_sequence.len() > 0
}

/// The bindings of `t` whose key sequence starts with `buf`, in table order.
pub open spec fn reachable_spec(t: Seq<BindingModel>, buf: Seq<char>) -> Seq<BindingModel>
    decreases t.len(),
{
    if t.len() == 0 {
        Seq::empty()
    } else {
        let rest = reachable_spec(t.drop_last(), buf);
        if buf.is_prefix_of(t.last().key_sequence) {
            rest.push(t.last())
        } else {
            rest
        }
    }
}

/// The bindings of `t` whose key sequence is exactly `buf`, in table order.
pub open spec fn exact_spec(t: Seq<BindingModel>, buf: Seq<char>) -> Seq<BindingModel>
    decreases t.len(),
{
    if t.len() == 0 {
        Seq::empty()
    } else {
        let rest = exact_spec(t.drop_last(), buf);
        if t.last().key_sequence == buf {
            rest.push(t.last())
        } else {
            rest
        }
    }
}

/// A non-empty buffer that is a prefix of `k` stays one when its last
/// character is dropped.
proof fn lemma_prefix_shrink(buf: Seq<char>, k: Seq<char>)
    requires
        buf.len() > 0,
        buf.is_prefix_of(k),
    ensures
        buf.drop_last().is_prefix_of(k),
{
    assert(buf.drop_last() =~= k.subrange(0, buf.len() - 1));
}

/// Prefix-narrowing monotonicity: whatever is reachable under a non-empty
/// buffer was already reachable before its last character was typed.
pub proof fn lemma_reachable_narrows(t: Seq<BindingModel>, buf: Seq<char>)
    requires
        buf.len() > 0,
    ensures
        forall|b: BindingModel| #[trigger]
            reachable_spec(t, buf).contains(b) ==> reachable_spec(t, buf.drop_last()).contains(b),
    decreases t.len(),
{
    broadcast use vstd::seq_lib::group_seq_properties;

    if t.len() > 0 {
        lemma_reachable_narrows(t.drop_last(), buf);
        assert forall|b: BindingModel| #[trigger] reachable_spec(t, buf).contains(
            b,
        ) implies reachable_spec(t, buf.drop_last()).contains(b) by {
            let r = reachable_spec(t, buf);
            let prev = reachable_spec(t.drop_last(), buf);
            let prev_short = reachable_spec(t.drop_last(), buf.drop_last());
            if buf.is_prefix_of(t.last().key_sequence) {
                lemma_prefix_shrink(buf, t.last().key_sequence);
                if b == t.last() {
                    assert(reachable_spec(t, buf.drop_last()) == prev_short.push(t.last()));
                } else {
                    let i = choose|i: int| 0 <= i < r.len() && r[i] == b;
                    assert(prev[i] == b);
                }
            }
        }
    }
}

/// Every binding whose key sequence equals the buffer is also reachable from
/// it, so an empty reachable set leaves nothing to resolve.
pub proof fn lemma_exact_within_reachable(t: Seq<BindingModel>, buf: Seq<char>)
    ensures
        exact_spec(t, buf).len() <= reachable_spec(t, buf).len(),
    decreases t.len(),
{
    if t.len() > 0 {
        lemma_exact_within_reachable(t.drop_last(), buf);
        if t.last().key_sequence == buf {
            assert(buf =~= t.last().key_sequence.subrange(0, buf.len() as int));
        }
    }
}

/// An immutable, ordered table of bindings; insertion order defines both the
/// display order and the tie-break order of resolution.
pub struct BindingTable {
    bindings: Vec<Binding>,
}

impl View for BindingTable {
    type V = Seq<BindingModel>;

    closed spec fn view(&self) -> Seq<BindingModel> {
        self.bindings@.map_values(|b: Binding| b@)
    }
}

impl BindingTable {
    /// Builds the table from already-parsed entries, preserving their order.
    /// Malformed entries are filtered out upstream, so every key sequence
    /// handed here is non-empty.
    pub fn load(entries: Vec<Binding>) -> (t: BindingTable)
        requires
            forall|i: int|
                0 <= i < entries@.len() ==> #[trigger] entries@[i].key_sequence@.len() > 0,
        ensures
            t@ == entries@.map_values(|b: Binding| b@),
            table_wf(t@),
    {
        let t = BindingTable { bindings: entries };
        proof {
            assert forall|i: int| 0 <= i < t@.len() implies #[trigger] t@[i].key_sequence.len()
                > 0 by {
                assert(t@[i] == t.bindings@[i]@);
            }
        }
        t
    }

    /// The full ordered contents of the table.
    pub fn all(&self) -> (r: &Vec<Binding>)
        ensures
            r@.map_values(|b: Binding| b@) == self@,
    {
        &self.bindings
    }

    /// How many bindings were loaded.
    pub fn len(&self) -> (n: usize)
        ensures
            n == self@.len(),
    {
        self.bindings.len()
    }

    /// The bindings whose key sequence starts with `prefix`, in table order.
    pub fn reachable_from(&self, prefix: &Vec<char>) -> (r: Vec<Binding>)
        ensures
            r@.map_values(|b: Binding| b@) == reachable_spec(self@, prefix@),
    {
        let mut r: Vec<Binding> = Vec::new();
        let mut i: usize = 0;
        proof {
            assert(self@.take(0) =~= Seq::<BindingModel>::empty());
        }
        while i < self.bindings.len()
            invariant
                i <= self.bindings@.len(),
                self@ == self.bindings@.map_values(|b: Binding| b@),
                r@.map_values(|b: Binding| b@) == reachable_spec(self@.take(i as int), prefix@),
            decreases self.bindings@.len() - i,
        {
            let ghost prev = r@.map_values(|b: Binding| b@);
            let b = &self.bindings[i];
            if is_char_prefix(prefix, &b.key_sequence) {
                r.push(b.duplicate());
                proof {
                    assert(r@.map_values(|b: Binding| b@) =~= prev.push(self@[i as int]));
                }
            }
            proof {
                let tk = self@.take(i + 1);
                assert(tk.drop_last() =~= self@.take(i as int));
                assert(tk.last() == self@[i as int]);
            }
            i += 1;
        }
        proof {
            assert(self@.take(self@.len() as int) =~= self@);
        }
        r
    }

    /// The first binding whose key sequence is exactly `buf`, if any.
    pub fn first_exact(&self, buf: &Vec<char>) -> (r: Option<Binding>)
        ensures
            match r {
                Some(b) => exact_spec(self@, buf@).len() > 0 && b@ == exact_spec(self@, buf@)[0],
                None => exact_spec(self@, buf@).len() == 0,
            },
    {
        let mut found: Option<Binding> = None;
        let mut i: usize = 0;
        proof {
            assert(self@.take(0) =~= Seq::<BindingModel>::empty());
        }
        while i < self.bindings.len()
            invariant
                i <= self.bindings@.len(),
                self@ == self.bindings@.map_values(|b: Binding| b@),
                match found {
                    Some(b) => exact_spec(self@.take(i as int), buf@).len() > 0 && b@
                        == exact_spec(self@.take(i as int), buf@)[0],
                    None => exact_spec(self@.take(i as int), buf@).len() == 0,
                },
            decreases self.bindings@.len() - i,
        {
            let b = &self.bindings[i];
            if found.is_none() && chars_equal(&b.key_sequence, buf) {
                found = Some(b.duplicate());
            }
            proof {
                let tk = self@.take(i + 1);
                assert(tk.drop_last() =~= self@.take(i as int));
                assert(tk.last() == self@[i as int]);
            }
            i += 1;
        }
        proof {
            assert(self@.take(self@.len() as int) =~= self@);
        }
        found
    }
}

} // verus!
