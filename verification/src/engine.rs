//! The rewrite engine: a source text, a read head, and an output
//! accumulator of fragments.
//!
//! A pass over the text moves the read head left to right.  Text the
//! pass keeps is moved into the accumulator with `reader_push`, text it
//! drops is passed over with `reader_skip`, and replacement text is
//! inserted with `push`.  `reset_reader` folds the accumulator and the
//! unread suffix into a new source text for the next pass.

use vstd::prelude::*;

verus! {

/// One fragment of the output accumulator: either a span of the pass's
/// source text (kept zero-copy until the fold), or an owned byte string
/// produced by a replacement.
pub enum Fragment {
    /// Bytes `[start, end)` of the source text.
    Span(usize, usize),
    /// Newly produced bytes.
    Owned(Vec<u8>),
}

/// The bytes a fragment stands for, relative to a source text.
pub open spec fn frag_bytes(text: Seq<u8>, f: Fragment) -> Seq<u8> {
    match f {
        Fragment::Span(a, b) => text.subrange(a as int, b as int),
        Fragment::Owned(v) => v@,
    }
}

/// A fragment's bounds lie within the source text.
pub open spec fn frag_wf(text: Seq<u8>, f: Fragment) -> bool {
    match f {
        Fragment::Span(a, b) => a <= b <= text.len(),
        Fragment::Owned(_) => true,
    }
}

/// Concatenation of a sequence of fragment contents, in order.
pub open spec fn cat(frags: Seq<Seq<u8>>) -> Seq<u8>
    decreases frags.len(),
{
    if frags.len() == 0 {
        Seq::empty()
    } else {
        cat(frags.drop_last()) + frags.last()
    }
}

pub proof fn lemma_cat_push(frags: Seq<Seq<u8>>, x: Seq<u8>)
    ensures
        cat(frags.push(x)) == cat(frags) + x,
{
    assert(frags.push(x).drop_last() =~= frags);
    assert(frags.push(x).last() == x);
}

pub proof fn lemma_cat_take_succ(frags: Seq<Seq<u8>>, i: int)
    requires
        0 <= i < frags.len(),
    ensures
        cat(frags.take(i + 1)) == cat(frags.take(i)) + frags[i],
{
    assert(frags.take(i + 1).drop_last() =~= frags.take(i));
    assert(frags.take(i + 1).last() == frags[i]);
}

/// Append the bytes of a slice to a byte vector.
pub fn extend_bytes(dst: &mut Vec<u8>, src: &[u8])
    ensures
        final(dst)@ == old(dst)@ + src@,
{
    let ghost dst0: Seq<u8> = dst@;
    let mut i: usize = 0;
    while i < src.len()
        invariant
            i <= src@.len(),
            dst@ == dst0 + src@.take(i as int),
        decreases src@.len() - i,
    {
        let b = *vstd::slice::slice_index_get(src, i);
        proof {
            assert(src@.take(i + 1) =~= src@.take(i as int).push(src@[i as int]));
            assert(dst0 + src@.take(i + 1) =~= (dst0 + src@.take(i as int)).push(src@[i as int]));
        }
        dst.push(b);
        i = i + 1;
    }
    proof {
        assert(src@.take(src@.len() as int) =~= src@);
    }
}

/// Holds one file's text while the rules run over it.
pub struct FileTransformer {
    txt: Vec<u8>,
    read_ofst: usize,
    new_txt: Vec<Fragment>,
    modified: bool,
}

impl FileTransformer {
    /// The current source text.
    pub closed spec fn text(&self) -> Seq<u8> {
        self.txt@
    }

    /// The read head: the boundary between decided and unread text.
    pub closed spec fn head(&self) -> int {
        self.read_ofst as int
    }

    /// The contents of the accumulator's fragments, in order.
    pub closed spec fn frags(&self) -> Seq<Seq<u8>> {
        Seq::new(self.new_txt@.len(), |i: int| frag_bytes(self.txt@, self.new_txt@[i]))
    }

    /// Whether any `reader_skip` or `push` has happened since `new`:
    /// whether some pass has produced a different document.
    pub closed spec fn is_modified(&self) -> bool {
        self.modified
    }

    /// Well-formedness: the head and every fragment lie within the
    /// text, and as long as nothing was skipped or inserted, the
    /// accumulator holds exactly the text before the head.
    pub closed spec fn wf(&self) -> bool {
        &&& self.read_ofst <= self.txt.len()
        &&& forall|i: int|
            0 <= i < self.new_txt@.len() ==> frag_wf(self.txt@, #[trigger] self.new_txt@[i])
        &&& !self.modified ==> cat(self.frags()) == self.txt@.take(self.read_ofst as int)
    }

    /// Start a pass sequence over a file's full text.
    pub fn new(text: Vec<u8>) -> (r: Self)
        ensures
            r.wf(),
            r.text() == text@,
            r.head() == 0,
            r.frags() == Seq::<Seq<u8>>::empty(),
            !r.is_modified(),
    {
        let r = FileTransformer { txt: text, read_ofst: 0, new_txt: Vec::new(), modified: false };
        proof {
            assert(r.frags() =~= Seq::<Seq<u8>>::empty());
            assert(r.txt@.take(0) =~= Seq::<u8>::empty());
        }
        r
    }

    /// Move the read head forward, saving the text it skims.
    ///
    /// Together with `reset_reader`'s last postcondition this carries
    /// the engine's round-trip law: a pass made of captures alone
    /// folds back to exactly the original text.
    pub fn reader_push(&mut self, amount: usize)
        requires
            old(self).wf(),
            old(self).head() + amount <= old(self).text().len(),
        ensures
            final(self).wf(),
            final(self).text() == old(self).text(),
            final(self).head() == old(self).head() + amount,
            final(self).frags() == old(self).frags().push(
                old(self).text().subrange(old(self).head(), old(self).head() + amount),
            ),
            final(self).is_modified() == old(self).is_modified(),
    {
        let ghost pre = *self;
        self.new_txt.push(Fragment::Span(self.read_ofst, self.read_ofst + amount));
        self.read_ofst = self.read_ofst + amount;
        proof {
            let sp = pre.txt@.subrange(pre.head(), pre.head() + amount);
            assert(self.frags() =~= pre.frags().push(sp));
            if !self.modified {
                lemma_cat_push(pre.frags(), sp);
                assert(pre.txt@.take(pre.head()) + sp =~= self.txt@.take(self.head()));
            }
        }
    }

    /// Move the read head forward, discarding the text it skims.
    pub fn reader_skip(&mut self, amount: usize)
        requires
            old(self).wf(),
            old(self).head() + amount <= old(self).text().len(),
        ensures
            final(self).wf(),
            final(self).text() == old(self).text(),
            final(self).head() == old(self).head() + amount,
            final(self).frags() == old(self).frags(),
            final(self).is_modified(),
    {
        let ghost pre = *self;
        self.read_ofst = self.read_ofst + amount;
        self.modified = true;
        proof {
            assert(self.frags() =~= pre.frags());
        }
    }

    /// Insert new text into the output where the read head sits.
    pub fn push(&mut self, new: Vec<u8>)
        requires
            old(self).wf(),
        ensures
            final(self).wf(),
            final(self).text() == old(self).text(),
            final(self).head() == old(self).head(),
            final(self).frags() == old(self).frags().push(new@),
            final(self).is_modified(),
    {
        let ghost pre = *self;
        self.new_txt.push(Fragment::Owned(new));
        self.modified = true;
        proof {
            assert(self.frags() =~= pre.frags().push(new@));
        }
    }

    /// The unread suffix of the current text, from the read head on.
    pub fn get_reader<'a>(&'a self) -> (r: &'a [u8])
        requires
            self.wf(),
        ensures
            r@ == self.text().subrange(self.head(), self.text().len() as int),
    {
        vstd::slice::slice_subrange(self.txt.as_slice(), self.read_ofst, self.txt.len())
    }

    /// Fold the accumulator and the unread suffix into a new source
    /// text and reset the read head: the end of one pass, the start of
    /// the next.
    ///
    /// The last postcondition is the engine's round-trip law: when no
    /// text was skipped or inserted, the fold reproduces the original
    /// text exactly.
    pub fn reset_reader(&mut self)
        requires
            old(self).wf(),
        ensures
            final(self).wf(),
            final(self).text() == cat(old(self).frags()) + old(self).text().subrange(
                old(self).head(),
                old(self).text().len() as int,
            ),
            final(self).head() == 0,
            final(self).frags() == Seq::<Seq<u8>>::empty(),
            final(self).is_modified() == old(self).is_modified(),
            !old(self).is_modified() ==> final(self).text() == old(self).text(),
    {
        let ghost pre = *self;
        let mut out: Vec<u8> = Vec::new();
        let mut i: usize = 0;
        while i < self.new_txt.len()
            invariant
                *self == pre,
                pre.wf(),
                i <= self.new_txt@.len(),
                out@ == cat(pre.frags().take(i as int)),
            decreases self.new_txt@.len() - i,
        {
            proof {
                lemma_cat_take_succ(pre.frags(), i as int);
            }
            match &self.new_txt[i] {
                Fragment::Span(a, b) => {
                    let s = vstd::slice::slice_subrange(self.txt.as_slice(), *a, *b);
                    extend_bytes(&mut out, s);
                },
                Fragment::Owned(v) => {
                    extend_bytes(&mut out, v.as_slice());
                },
            }
            i = i + 1;
        }
        proof {
            assert(pre.frags().take(pre.frags().len() as int) =~= pre.frags());
        }
        let rest = vstd::slice::slice_subrange(self.txt.as_slice(), self.read_ofst, self.txt.len());
        extend_bytes(&mut out, rest);
        self.txt = out;
        self.read_ofst = 0;
        self.new_txt = Vec::new();
        proof {
            assert(self.frags() =~= Seq::<Seq<u8>>::empty());
            assert(self.txt@.take(0) =~= Seq::<u8>::empty());
            if !pre.modified {
                assert(pre.txt@.take(pre.head()) + pre.txt@.subrange(
                    pre.head(),
                    pre.txt@.len() as int,
                ) =~= pre.txt@);
            }
        }
    }

    /// End of all passes: hand back the final text and whether any
    /// pass changed the document.
    pub fn into_parts(self) -> (r: (Vec<u8>, bool))
        requires
            self.wf(),
            self.head() == 0,
            self.frags() == Seq::<Seq<u8>>::empty(),
        ensures
            r.0@ == self.text(),
            r.1 == self.is_modified(),
    {
        (self.txt, self.modified)
    }

    /// Whether any pass so far changed the document.
    pub fn was_modified(&self) -> (b: bool)
        ensures
            b == self.is_modified(),
    {
        self.modified
    }

    /// Round-trip law: in any reachable state in which nothing was
    /// skipped or inserted — any sequence of `reader_push` calls, of
    /// any lengths — the accumulator holds exactly the text before
    /// the read head, so folding it with the unread suffix gives back
    /// the original text unchanged.
    pub proof fn lemma_capture_only_round_trip(self)
        requires
            self.wf(),
            !self.is_modified(),
        ensures
            cat(self.frags()) + self.text().subrange(self.head(), self.text().len() as int)
                == self.text(),
    {
        assert(self.text().take(self.head()) + self.text().subrange(
            self.head(),
            self.text().len() as int,
        ) =~= self.text());
    }
}

} // verus!
