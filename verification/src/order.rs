use vstd::prelude::*;
use vstd::multiset::Multiset;

verus! {

broadcast use vstd::seq_lib::group_to_multiset_ensures;

/// One line ready to be written out, ordered by `key`: an order-preserving
/// integer encoding of the expression's numeric value, supplied by the
/// caller so that `key(a) <= key(b)` exactly when the value of `a` is at
/// most the value of `b`.
pub struct OutputLine {
    /// Sort key standing for the numeric value of the expression.
    pub key: u64,
    /// The text to write for this expression.
    pub text: String,
}

impl OutputLine {
    /// Pairs one output text with its sort key.
    pub fn new(key: u64, text: String) -> (l: OutputLine)
        ensures
            l.key == key,
            l.text@ == text@,
    {
        OutputLine { key, text }
    }
}

/// Ascending by key: every earlier line's key is at most every later one's.
pub open spec fn sorted_by_key(s: Seq<OutputLine>) -> bool {
    forall|i: int, j: int| 0 <= i < j < s.len() ==> (#[trigger] s[i]).key <= (#[trigger] s[j]).key
}

/// Sorts the lines ascending by key. Afterwards the sequence is sorted and
/// holds exactly the lines it held before, none lost and none invented.
pub fn sort_list(lines: &mut Vec<OutputLine>)
    ensures
        sorted_by_key(final(lines)@),
        final(lines)@.to_multiset() == old(lines)@.to_multiset(),
        final(lines)@.len() == old(lines)@.len(),
{
    let ghost orig = lines@;
    let mut sorted: Vec<OutputLine> = Vec::new();
    proof {
        assert(sorted@.to_multiset().add(lines@.to_multiset()) =~= orig.to_multiset());
    }
    while lines.len() > 0
        invariant
            sorted_by_key(sorted@),
            forall|a: int, b: int|
                0 <= a < sorted@.len() && 0 <= b < lines@.len() ==> (#[trigger] sorted@[a]).key <= (
                #[trigger] lines@[b]).key,
            sorted@.to_multiset().add(lines@.to_multiset()) == orig.to_multiset(),
            sorted@.len() + lines@.len() == orig.len(),
        decreases lines@.len(),
    {
        let mut m: usize = 0;
        let mut i: usize = 1;
        while i < lines.len()
            invariant
                0 < lines@.len(),
                0 <= m < i <= lines@.len(),
                forall|k: int| 0 <= k < i ==> lines@[m as int].key <= (#[trigger] lines@[k]).key,
            decreases lines@.len() - i,
        {
            if lines[i].key < lines[m].key {
                m = i;
            }
            i = i + 1;
        }
        let ghost before = lines@;
        let x = lines.remove(m);
        sorted.push(x);
        proof {
            assert(before.remove(m as int).to_multiset() =~= before.to_multiset().remove(x));
            assert(sorted@.to_multiset().add(lines@.to_multiset()) =~= orig.to_multiset());
        }
    }
    proof {
        assert(lines@.to_multiset() =~= Multiset::<OutputLine>::empty());
        assert(sorted@.to_multiset() =~= orig.to_multiset());
    }
    *lines = sorted;
}

} // verus!
