use vstd::prelude::*;
use vstd::string::StrSliceExecFns;
use vstd::string::StringExecFns;
use crate::text::push_char;

verus! {

/// Where the next chunk of `s` starts: `w` characters from the right end, or
/// the start when fewer remain (a width of zero takes everything).
pub open spec fn chunk_start(s: Seq<char>, w: nat) -> int {
    if w == 0 || s.len() <= w {
        0
    } else {
        s.len() - w
    }
}

/// The chunks of `s`, at most `w` characters each, taken from the right end
/// leftwards; only the last one (the leftmost text) may be shorter.
pub open spec fn rev_chunks(s: Seq<char>, w: nat) -> Seq<Seq<char>>
    decreases s.len(),
{
    if s.len() == 0 {
        seq![]
    } else {
        let k = chunk_start(s, w);
        seq![s.subrange(k, s.len() as int)] + rev_chunks(s.subrange(0, k), w)
    }
}

/// The chunks joined with `mark`, last one first.
pub open spec fn join_reversed(chunks: Seq<Seq<char>>, mark: char) -> Seq<char>
    decreases chunks.len(),
{
    if chunks.len() == 0 {
        seq![]
    } else if chunks.len() == 1 {
        chunks[0]
    } else {
        join_reversed(chunks.drop_first(), mark) + seq![mark] + chunks[0]
    }
}

/// `s` with `mark` inserted between right-aligned groups of `w` characters.
pub open spec fn grouped(s: Seq<char>, w: nat, mark: char) -> Seq<char>
    decreases s.len(),
{
    if w == 0 || s.len() <= w {
        s
    } else {
        let k = s.len() - w;
        grouped(s.subrange(0, k), w, mark) + seq![mark] + s.subrange(k, s.len() as int)
    }
}

/// `s` without any occurrence of `mark`.
pub open spec fn strip_marks(s: Seq<char>, mark: char) -> Seq<char> {
    s.filter(other_than(mark))
}

/// Holds of every character but `mark`.
pub open spec fn other_than(mark: char) -> spec_fn(char) -> bool {
    |c: char| c != mark
}

proof fn lemma_join_rev_chunks(s: Seq<char>, w: nat, mark: char)
    ensures
        join_reversed(rev_chunks(s, w), mark) == grouped(s, w, mark),
    decreases s.len(),
{
    if s.len() > 0 && w > 0 && s.len() > w {
        let k = s.len() - w;
        let pre = s.subrange(0, k);
        let cs = rev_chunks(s, w);
        let post = s.subrange(k, s.len() as int);
        lemma_join_rev_chunks(pre, w, mark);
        assert(cs == seq![post] + rev_chunks(pre, w));
        assert(cs.drop_first() == rev_chunks(pre, w));
        assert(rev_chunks(pre, w).len() > 0);
        assert(cs.len() > 1);
        assert(cs[0] == post);
    } else if s.len() > 0 {
        let cs = rev_chunks(s, w);
        assert(s.subrange(0, s.len() as int) == s);
        assert(rev_chunks(s.subrange(0, 0), w) == Seq::<Seq<char>>::empty());
        assert(cs == seq![s] + Seq::<Seq<char>>::empty());
        assert(cs.len() == 1);
    }
}

pub(crate) proof fn lemma_strip_unmarked(s: Seq<char>, mark: char)
    requires
        forall|i: int| 0 <= i < s.len() ==> s[i] != mark,
    ensures
        strip_marks(s, mark) == s,
    decreases s.len(),
{
    reveal(Seq::filter);
    if s.len() > 0 {
        lemma_strip_unmarked(s.drop_last(), mark);
        assert(s.drop_last().push(s.last()) == s);
    }
}

/// Grouping only inserts marks: removing every mark from a grouped text that
/// had none gives back the text.
pub proof fn lemma_grouping_strips_back(s: Seq<char>, w: nat, mark: char)
    requires
        forall|i: int| 0 <= i < s.len() ==> s[i] != mark,
    ensures
        strip_marks(grouped(s, w, mark), mark) == s,
    decreases s.len(),
{
    if w == 0 || s.len() <= w {
        lemma_strip_unmarked(s, mark);
    } else {
        let k = s.len() - w;
        let pre = s.subrange(0, k);
        let post = s.subrange(k, s.len() as int);
        let p = other_than(mark);
        lemma_grouping_strips_back(pre, w, mark);
        lemma_strip_unmarked(post, mark);
        Seq::filter_distributes_over_add(grouped(pre, w, mark) + seq![mark], post, p);
        Seq::filter_distributes_over_add(grouped(pre, w, mark), seq![mark], p);
        reveal(Seq::filter);
        assert(seq![mark].drop_last() == Seq::<char>::empty());
        assert(seq![mark].last() == mark);
        assert(!p(mark));
        assert(Seq::<char>::empty().filter(p) == Seq::<char>::empty());
        assert(seq![mark].filter(p) == Seq::<char>::empty());
        assert(pre + post == s);
    }
}

/// Hands out the chunks of a text from its right end leftwards.
struct RevChunks<'a> {
    target: &'a str,
    size: usize,
}

impl<'a> RevChunks<'a> {
    fn next(&mut self) -> (r: Option<&'a str>)
        ensures
            final(self).size == old(self).size,
            old(self).target@.len() == 0 ==> r.is_none() && final(self).target@ == old(
                self,
            ).target@,
            old(self).target@.len() > 0 ==> {
                &&& r.is_some()
                &&& rev_chunks(old(self).target@, old(self).size as nat) == seq![r.unwrap()@]
                    + rev_chunks(final(self).target@, old(self).size as nat)
                &&& final(self).target@.len() < old(self).target@.len()
            },
    {
        let len = self.target.unicode_len();
        if len == 0 {
            return None;
        }
        let end: usize = if self.size == 0 || len <= self.size {
            0
        } else {
            len - self.size
        };
        let a = self.target.substring_char(0, end);
        let b = self.target.substring_char(end, len);
        self.target = a;
        Some(b)
    }
}

/// `digits` with `mark` between right-aligned groups of `size` characters.
pub(crate) fn group_digits(digits: &str, size: usize, mark: char) -> (r: String)
    ensures
        r@ == grouped(digits@, size as nat, mark),
{
    let mut it = RevChunks { target: digits, size };
    let mut chunks: Vec<&str> = Vec::new();
    loop
        invariant
            it.size == size,
            rev_chunks(digits@, size as nat) == chunks@.map_values(|c: &str| c@) + rev_chunks(
                it.target@,
                size as nat,
            ),
        ensures
            rev_chunks(digits@, size as nat) == chunks@.map_values(|c: &str| c@),
        decreases it.target@.len(),
    {
        let ghost before = it.target@;
        match it.next() {
            Some(c) => {
                let ghost prev = chunks@.map_values(|c: &str| c@);
                chunks.push(c);
                assert(chunks@.map_values(|c: &str| c@) == prev.push(c@));
                assert(prev + (seq![c@] + rev_chunks(it.target@, size as nat)) == prev.push(c@)
                    + rev_chunks(it.target@, size as nat));
            },
            None => {
                assert(rev_chunks(it.target@, size as nat) == Seq::<Seq<char>>::empty());
                assert(chunks@.map_values(|c: &str| c@) + Seq::<Seq<char>>::empty()
                    == chunks@.map_values(|c: &str| c@));
                break;
            },
        }
    }
    let ghost views = chunks@.map_values(|c: &str| c@);
    let n = chunks.len();
    let mut out = String::new();
    let mut i = n;
    while i > 0
        invariant
            i <= n == chunks@.len() == views.len(),
            views == chunks@.map_values(|c: &str| c@),
            out@ == join_reversed(views.subrange(i as int, n as int), mark),
        decreases i,
    {
        let ghost rest = views.subrange(i as int, n as int);
        if i < n {
            push_char(&mut out, mark);
        }
        out.append(chunks[i - 1]);
        i = i - 1;
        let ghost now = views.subrange(i as int, n as int);
        assert(now.drop_first() == rest);
        assert(now[0] == chunks@[i as int]@);
        if i + 1 == n {
            assert(rest.len() == 0);
        }
    }
    proof {
        assert(views.subrange(0, n as int) == views);
        lemma_join_rev_chunks(digits@, size as nat, mark);
    }
    out
}

} // verus!
