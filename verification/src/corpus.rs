//! The content corpus: a fixed text blob split once at startup into items
//! separated by blank lines (two consecutive line breaks), indexed by a
//! small integer id carried in broadcast payloads.

use vstd::prelude::*;

verus! {

/// Index of the first blank-line separator (two consecutive line breaks)
/// in `s`, or `s.len()` if there is none.
pub open spec fn first_sep(s: Seq<char>) -> int
    decreases s.len(),
{
    if s.len() < 2 {
        s.len() as int
    } else if s[0] == '\n' && s[1] == '\n' {
        0
    } else {
        1 + first_sep(s.skip(1))
    }
}

/// `first_sep` finds a separator with none earlier, or reports that the
/// sequence has no separator at all.
pub proof fn lemma_first_sep(s: Seq<char>)
    ensures
        0 <= first_sep(s) <= s.len(),
        first_sep(s) < s.len() ==> first_sep(s) + 2 <= s.len() && s[first_sep(s)] == '\n'
            && s[first_sep(s) + 1] == '\n',
        forall|k: int|
            0 <= k < first_sep(s) && k + 1 < s.len() ==> !((#[trigger] s[k]) == '\n' && s[k + 1]
                == '\n'),
    decreases s.len(),
{
    if s.len() >= 2 && !(s[0] == '\n' && s[1] == '\n') {
        lemma_first_sep(s.skip(1));
        assert forall|k: int|
            0 <= k < first_sep(s) && k + 1 < s.len() implies !((#[trigger] s[k]) == '\n' && s[k
            + 1] == '\n') by {
            if k > 0 {
                assert(s.skip(1)[k - 1] == s[k]);
                assert(s.skip(1)[k] == s[k + 1]);
            }
        }
    }
}

/// The items of `s` split on blank-line separators, in order: everything
/// before the first separator, then the split of everything after it. A
/// sequence without a separator is a single item, so the result is never
/// empty and splitting an empty sequence yields one empty item.
pub open spec fn split_blank(s: Seq<char>) -> Seq<Seq<char>>
    decreases s.len(),
    via split_blank_decreases
{
    let i = first_sep(s);
    if i + 2 <= s.len() {
        seq![s.take(i)] + split_blank(s.skip(i + 2))
    } else {
        seq![s]
    }
}

#[via_fn]
proof fn split_blank_decreases(s: Seq<char>) {
    lemma_first_sep(s);
}

/// Splitting always yields at least one item.
pub proof fn lemma_split_blank_nonempty(s: Seq<char>)
    ensures
        split_blank(s).len() >= 1,
{
    lemma_first_sep(s);
}

/// A blob with no blank-line separator is exactly one item: itself.
pub proof fn lemma_split_no_separator(s: Seq<char>)
    requires
        first_sep(s) == s.len(),
    ensures
        split_blank(s) == seq![s],
{
}

/// Scan for the first blank-line separator at or after `start`: returns
/// its absolute index, or `text.len()` if the rest of the text has none.
fn find_sep_from(text: &[char], start: usize) -> (j: usize)
    requires
        start <= text@.len(),
    ensures
        j == start + first_sep(text@.skip(start as int)),
        start <= j <= text@.len(),
        j < text@.len() ==> j + 2 <= text@.len() && text@[j as int] == '\n' && text@[j + 1]
            == '\n',
{
    proof {
        lemma_first_sep(text@.skip(start as int));
    }
    let ghost rel = first_sep(text@.skip(start as int));
    let n = text.len();
    let mut j = start;
    while j < n && n - j > 1 && !(text[j] == '\n' && text[j + 1] == '\n')
        invariant
            n == text@.len(),
            start <= j <= n,
            forall|k: int|
                start <= k < j && k + 1 < n ==> !((#[trigger] text@[k]) == '\n' && text@[k + 1]
                    == '\n'),
        decreases n - j,
    {
        j = j + 1;
    }
    if n - j > 1 {
        proof {
            assert(text@.skip(start as int)[j - start] == text@[j as int]);
            assert(text@.skip(start as int)[j - start + 1] == text@[j + 1]);
            if rel < j - start {
                assert(text@.skip(start as int)[rel] == text@[start + rel]);
                assert(text@.skip(start as int)[rel + 1] == text@[start + rel + 1]);
            }
            if rel > j - start {
                assert(!(text@.skip(start as int)[j - start] == '\n' && text@.skip(
                    start as int,
                )[j - start + 1] == '\n'));
            }
            assert(rel == j - start);
        }
        j
    } else {
        proof {
            if rel < text@.len() - start {
                assert(text@.skip(start as int)[rel] == text@[start + rel]);
                assert(text@.skip(start as int)[rel + 1] == text@[start + rel + 1]);
            }
            assert(rel == text@.len() - start);
        }
        n
    }
}

/// Copy `text[from..to]` into a fresh vector.
fn copy_segment(text: &[char], from: usize, to: usize) -> (seg: Vec<char>)
    requires
        from <= to <= text@.len(),
    ensures
        seg@ == text@.subrange(from as int, to as int),
{
    let mut seg: Vec<char> = Vec::new();
    let mut m = from;
    while m < to
        invariant
            from <= m <= to <= text@.len(),
            seg@ == text@.subrange(from as int, m as int),
        decreases to - m,
    {
        seg.push(text[m]);
        assert(seg@ =~= text@.subrange(from as int, m + 1));
        m = m + 1;
    }
    seg
}

/// Split `text` into corpus items on blank-line separators, in order of
/// appearance.
pub fn split_corpus(text: &[char]) -> (items: Vec<Vec<char>>)
    ensures
        items@.map_values(|v: Vec<char>| v@) == split_blank(text@),
        items@.len() >= 1,
{
    let mut items: Vec<Vec<char>> = Vec::new();
    let mut start: usize = 0;
    proof {
        assert(text@.skip(0) =~= text@);
        assert(items@.map_values(|v: Vec<char>| v@) =~= Seq::<Seq<char>>::empty());
    }
    loop
        invariant_except_break
            start <= text@.len(),
            split_blank(text@) =~= items@.map_values(|v: Vec<char>| v@) + split_blank(
                text@.skip(start as int),
            ),
        ensures
            items@.map_values(|v: Vec<char>| v@) =~= split_blank(text@),
        decreases text@.len() - start,
    {
        proof {
            lemma_first_sep(text@.skip(start as int));
        }
        let j = find_sep_from(text, start);
        if j == text.len() {
            let seg = copy_segment(text, start, j);
            proof {
                assert(seg@ =~= text@.skip(start as int));
                assert(split_blank(text@.skip(start as int)) == seq![text@.skip(start as int)]);
                assert((items@ + seq![seg]).map_values(|v: Vec<char>| v@) =~= items@.map_values(
                    |v: Vec<char>| v@,
                ) + seq![seg@]);
            }
            items.push(seg);
            break;
        } else {
            let seg = copy_segment(text, start, j);
            proof {
                let rest = text@.skip(start as int);
                let rel = first_sep(rest);
                assert(seg@ =~= rest.take(rel));
                assert(rest.skip(rel + 2) =~= text@.skip(j + 2));
                assert(split_blank(rest) == seq![rest.take(rel)] + split_blank(
                    rest.skip(rel + 2),
                ));
                assert((items@ + seq![seg]).map_values(|v: Vec<char>| v@) =~= items@.map_values(
                    |v: Vec<char>| v@,
                ) + seq![seg@]);
            }
            items.push(seg);
            start = j + 2;
        }
    }
    proof {
        lemma_split_blank_nonempty(text@);
    }
    items
}

/// The fixed, startup-built collection of displayable text items, indexed
/// by the small integer id carried in broadcast payloads.
pub struct Corpus {
    pub items: Vec<Vec<char>>,
}

/// The id actually displayed for a requested id: in-range ids pass
/// through, and an out-of-range id (a malformed payload from a peer with a
/// different corpus) is clamped to the last item instead of faulting.
pub open spec fn resolve_id_spec(id: nat, len: nat) -> nat {
    if id < len {
        id
    } else {
        (len - 1) as nat
    }
}

impl Corpus {
    /// A corpus is never empty: splitting guarantees at least one item.
    pub open spec fn wf(self) -> bool {
        self.items@.len() >= 1
    }

    /// Build the corpus by splitting `text` on blank lines.
    pub fn new(text: &[char]) -> (c: Corpus)
        ensures
            c.wf(),
            c.items@.map_values(|v: Vec<char>| v@) == split_blank(text@),
    {
        Corpus { items: split_corpus(text) }
    }

    /// Number of items.
    pub fn len(&self) -> (n: usize)
        ensures
            n == self.items@.len(),
    {
        self.items.len()
    }

    /// Item for an id, or `None` exactly when the id is out of range.
    pub fn get(&self, id: u8) -> (r: Option<&Vec<char>>)
        ensures
            match r {
                Some(item) => id < self.items@.len() && item@ == self.items@[id as int]@,
                None => id >= self.items@.len(),
            },
    {
        if (id as usize) < self.items.len() {
            Some(&self.items[id as usize])
        } else {
            None
        }
    }

    /// Clamp a requested id into range: the id itself if valid, else the
    /// last item's id. Never faults, whatever the payload carried.
    pub fn resolve_id(&self, id: u8) -> (r: u8)
        requires
            self.wf(),
        ensures
            r as nat == resolve_id_spec(id as nat, self.items@.len()),
            r < self.items@.len(),
    {
        if (id as usize) < self.items.len() {
            id
        } else {
            (self.items.len() - 1) as u8
        }
    }
}

} // verus!
