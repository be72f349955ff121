//! An allocation-free, predicate-driven cursor over a borrowed string.

use vstd::prelude::*;
use vstd::string::StrSliceExecFns;

verus! {

/// Failure of a cursor extraction.
#[derive(PartialEq, Eq, Debug)]
pub enum Error {
    /// The cursor was exhausted before the request could be served.
    EOF,
    /// The next character did not satisfy the expected predicate.
    Unexpected,
}

impl From<Error> for crate::error::Error {
    /// Every cursor failure collapses into the grammar's single error kind.
    fn from(e: Error) -> (r: crate::error::Error)
        ensures
            r == crate::error::Error::InvalidSequence,
    {
        crate::error::Error::InvalidSequence
    }
}

impl vstd::std_specs::convert::FromSpecImpl<Error> for crate::error::Error {
    open spec fn obeys_from_spec() -> bool {
        true
    }

    open spec fn from_spec(e: Error) -> crate::error::Error {
        crate::error::Error::InvalidSequence
    }
}

/// A simple allocation-free string lexer.
///
/// The lexer owns no text: it is a view over a borrowed string plus two
/// character positions, the cursor itself and a saved marker. Every slice it
/// returns borrows from the same underlying string.
#[derive(Clone, Copy, Debug)]
pub struct Lexer<'a> {
    text: &'a str,
    cursor: usize,
    marker: usize,
}

impl<'a> Lexer<'a> {
    /// The whole underlying text, as a sequence of characters.
    pub closed spec fn full_text(self) -> Seq<char> {
        self.text@
    }

    /// The current cursor position, in characters from the start of the text.
    pub closed spec fn pos(self) -> int {
        self.cursor as int
    }

    /// The marked position, in characters from the start of the text.
    pub closed spec fn mark_pos(self) -> int {
        self.marker as int
    }

    /// Well-formedness: the marker never lies past the cursor, and the cursor
    /// never lies past the end of the text. Every constructor establishes
    /// this and every operation preserves it.
    pub open spec fn wf(self) -> bool {
        0 <= self.mark_pos() <= self.pos() <= self.full_text().len()
    }

    /// The not-yet-consumed suffix of the text.
    pub open spec fn remaining_text(self) -> Seq<char> {
        self.full_text().subrange(self.pos(), self.full_text().len() as int)
    }

    /// The characters consumed since the marked position.
    pub open spec fn consumed_text(self) -> Seq<char> {
        self.full_text().subrange(self.mark_pos(), self.pos())
    }

    /// Creates a lexer at the start of `string`, with the marker at the start.
    pub fn new(string: &'a str) -> (r: Lexer<'a>)
        ensures
            r.wf(),
            r.full_text() == string@,
            r.pos() == 0,
            r.mark_pos() == 0,
    {
        Lexer { text: string, cursor: 0, marker: 0 }
    }

    /// Marks the current cursor position, discarding any previous mark.
    pub fn mark(&mut self)
        requires
            old(self).wf(),
        ensures
            final(self).wf(),
            final(self).full_text() == old(self).full_text(),
            final(self).pos() == old(self).pos(),
            final(self).mark_pos() == old(self).pos(),
    {
        self.marker = self.cursor;
    }

    /// Rewinds the cursor back to the marked position.
    pub fn rewind(&mut self)
        requires
            old(self).wf(),
        ensures
            final(self).wf(),
            final(self).full_text() == old(self).full_text(),
            final(self).pos() == old(self).mark_pos(),
            final(self).mark_pos() == old(self).mark_pos(),
    {
        self.cursor = self.marker;
    }

    /// Gets a string of the characters consumed since the marked position.
    pub fn consumed(&self) -> (r: &'a str)
        requires
            self.wf(),
        ensures
            r@ == self.consumed_text(),
    {
        self.text.substring_char(self.marker, self.cursor)
    }

    /// Gets the remaining characters that haven't been extracted.
    pub fn remaining(&self) -> (r: &'a str)
        requires
            self.wf(),
        ensures
            r@ == self.remaining_text(),
    {
        self.text.substring_char(self.cursor, self.text.unicode_len())
    }

    /// Returns `true` if there are no more characters left to be extracted.
    pub fn is_empty(&self) -> (r: bool)
        requires
            self.wf(),
        ensures
            r == (self.remaining_text().len() == 0),
    {
        self.cursor == self.text.unicode_len()
    }

    /// Extracts all leading characters that match a pattern.
    ///
    /// On success the cursor advances past exactly the maximal matched run,
    /// which may be empty. Fails with [`Error::EOF`], without any state
    /// change, only if the cursor was already exhausted before the call.
    pub fn extract<F: Fn(char) -> bool>(&mut self, pattern: F) -> (r: Result<&'a str, Error>)
        requires
            old(self).wf(),
            forall|c: char| #[trigger] call_requires(pattern, (c,)),
        ensures
            final(self).wf(),
            final(self).full_text() == old(self).full_text(),
            final(self).mark_pos() == old(self).mark_pos(),
            match r {
                Ok(s) => {
                    let k = final(self).pos() - old(self).pos();
                    &&& old(self).remaining_text().len() > 0
                    &&& 0 <= k <= old(self).remaining_text().len()
                    &&& s@ == old(self).remaining_text().subrange(0, k)
                    &&& final(self).remaining_text() == old(self).remaining_text().skip(k)
                    &&& forall|i: int|
                        0 <= i < k ==> call_ensures(
                            pattern,
                            (old(self).remaining_text()[i],),
                            true,
                        )
                    &&& (k == old(self).remaining_text().len() || call_ensures(
                        pattern,
                        (old(self).remaining_text()[k],),
                        false,
                    ))
                },
                Err(e) => e == Error::EOF && old(self).remaining_text().len() == 0 && *final(self)
                    == *old(self),
            },
    {
        let ghost orig = *self;
        let end = self.text.unicode_len();
        if self.cursor == end {
            return Err(Error::EOF);
        }
        let start = self.cursor;
        loop
            invariant
                orig.wf(),
                self.text@ == orig.text@,
                self.marker == orig.marker,
                end == self.text@.len(),
                start == orig.cursor,
                start <= self.cursor <= end,
                forall|i: int|
                    start <= i < self.cursor ==> call_ensures(
                        pattern,
                        (self.text@[i],),
                        true,
                    ),
                forall|c: char| #[trigger] call_requires(pattern, (c,)),
            ensures
                self.text@ == orig.text@,
                self.marker == orig.marker,
                start <= self.cursor <= end,
                forall|i: int|
                    start <= i < self.cursor ==> call_ensures(
                        pattern,
                        (self.text@[i],),
                        true,
                    ),
                self.cursor == end || call_ensures(
                    pattern,
                    (self.text@[self.cursor as int],),
                    false,
                ),
            decreases end - self.cursor,
        {
            if self.cursor == end {
                break ;
            }
            let c = self.text.get_char(self.cursor);
            if pattern(c) {
                self.cursor = self.cursor + 1;
            } else {
                break ;
            }
        }
        let extracted = self.text.substring_char(start, self.cursor);
        proof {
            assert(extracted@ =~= orig.remaining_text().subrange(
                0,
                self.pos() - orig.pos(),
            ));
            assert(self.remaining_text() =~= orig.remaining_text().skip(self.pos() - orig.pos()));
            assert forall|i: int| 0 <= i < self.pos() - orig.pos() implies call_ensures(
                pattern,
                (orig.remaining_text()[i],),
                true,
            ) by {
                assert(orig.remaining_text()[i] == self.text@[start + i]);
            }
            if self.pos() - orig.pos() != orig.remaining_text().len() {
                assert(orig.remaining_text()[self.pos() - orig.pos()]
                    == self.text@[self.cursor as int]);
            }
        }
        Ok(extracted)
    }

    /// Extracts one character that matches a pattern.
    ///
    /// If the next character does not satisfy the pattern, fails with
    /// [`Error::Unexpected`] and performs no state change; the mismatched
    /// character remains for the next call. Fails with [`Error::EOF`],
    /// without any state change, if the cursor is exhausted.
    pub fn extract_one<F: Fn(char) -> bool>(&mut self, pattern: F) -> (r: Result<&'a str, Error>)
        requires
            old(self).wf(),
            forall|c: char| #[trigger] call_requires(pattern, (c,)),
        ensures
            final(self).wf(),
            final(self).full_text() == old(self).full_text(),
            final(self).mark_pos() == old(self).mark_pos(),
            match r {
                Ok(s) => {
                    &&& old(self).remaining_text().len() > 0
                    &&& call_ensures(pattern, (old(self).remaining_text()[0],), true)
                    &&& final(self).pos() == old(self).pos() + 1
                    &&& s@ == seq![old(self).remaining_text()[0]]
                    &&& final(self).remaining_text() == old(self).remaining_text().skip(1)
                },
                Err(e) => match e {
                    Error::EOF => old(self).remaining_text().len() == 0 && *final(self) == *old(
                        self,
                    ),
                    Error::Unexpected => {
                        &&& old(self).remaining_text().len() > 0
                        &&& call_ensures(pattern, (old(self).remaining_text()[0],), false)
                        &&& *final(self) == *old(self)
                    },
                },
            },
    {
        let ghost orig = *self;
        let end = self.text.unicode_len();
        if self.cursor == end {
            return Err(Error::EOF);
        }
        let c = self.text.get_char(self.cursor);
        if pattern(c) {
            let extracted = self.text.substring_char(self.cursor, self.cursor + 1);
            self.cursor = self.cursor + 1;
            proof {
                assert(extracted@ =~= seq![orig.remaining_text()[0]]);
                assert(self.remaining_text() =~= orig.remaining_text().skip(1));
            }
            Ok(extracted)
        } else {
            Err(Error::Unexpected)
        }
    }

    /// Extracts one character that matches a pattern.
    /// This is the greedy variant that will always advance the cursor.
    ///
    /// On success or [`Error::EOF`] it behaves exactly like
    /// [`Lexer::extract_one`]. On a mismatch it forcibly advances the cursor
    /// past the offending character before returning [`Error::Unexpected`],
    /// so that a caller which ignores the error still makes forward progress.
    pub fn extract_one_greedy<F: Fn(char) -> bool>(&mut self, pattern: F) -> (r: Result<
        &'a str,
        Error,
    >)
        requires
            old(self).wf(),
            forall|c: char| #[trigger] call_requires(pattern, (c,)),
        ensures
            final(self).wf(),
            final(self).full_text() == old(self).full_text(),
            final(self).mark_pos() == old(self).mark_pos(),
            match r {
                Ok(s) => {
                    &&& old(self).remaining_text().len() > 0
                    &&& call_ensures(pattern, (old(self).remaining_text()[0],), true)
                    &&& final(self).pos() == old(self).pos() + 1
                    &&& s@ == seq![old(self).remaining_text()[0]]
                    &&& final(self).remaining_text() == old(self).remaining_text().skip(1)
                },
                Err(e) => match e {
                    Error::EOF => old(self).remaining_text().len() == 0 && *final(self) == *old(
                        self,
                    ),
                    Error::Unexpected => {
                        &&& old(self).remaining_text().len() > 0
                        &&& call_ensures(pattern, (old(self).remaining_text()[0],), false)
                        &&& final(self).pos() == old(self).pos() + 1
                        &&& final(self).mark_pos() == old(self).mark_pos()
                        &&& final(self).remaining_text() == old(self).remaining_text().skip(1)
                    },
                },
            },
    {
        let ghost orig = *self;
        match self.extract_one(pattern) {
            Err(Error::Unexpected) => {
                let skipped = self.skip(1);
                proof {
                    assert(skipped is Ok);
                    assert(self.remaining_text() =~= orig.remaining_text().skip(1));
                }
                Err(Error::Unexpected)
            },
            other => other,
        }
    }

    /// Skips a number of characters: all or nothing. If fewer than `n`
    /// characters remain, the cursor is left completely unchanged.
    pub fn skip(&mut self, n: usize) -> (r: Result<(), Error>)
        requires
            old(self).wf(),
        ensures
            final(self).wf(),
            final(self).full_text() == old(self).full_text(),
            final(self).mark_pos() == old(self).mark_pos(),
            match r {
                Ok(u) => n <= old(self).remaining_text().len() && final(self).pos() == old(
                    self,
                ).pos() + n,
                Err(e) => e == Error::EOF && old(self).remaining_text().len() < n && *final(self)
                    == *old(self),
            },
    {
        let end = self.text.unicode_len();
        if n <= end - self.cursor {
            self.cursor = self.cursor + n;
            Ok(())
        } else {
            Err(Error::EOF)
        }
    }
}

/// The length of the maximal leading run of `s` whose characters all satisfy
/// `p`. This is the number of characters [`Lexer::extract`] consumes when its
/// pattern agrees with `p`.
pub open spec fn run_len(s: Seq<char>, p: spec_fn(char) -> bool) -> nat
    decreases s.len(),
{
    if s.len() == 0 || !p(s[0]) {
        0
    } else {
        (1 + run_len(s.skip(1), p)) as nat
    }
}

/// The leading run never extends past the end of the text, every character in
/// it satisfies `p`, and it is maximal: the first character after it, if any,
/// does not satisfy `p`.
pub proof fn lemma_run_len_maximal(s: Seq<char>, p: spec_fn(char) -> bool)
    ensures
        run_len(s, p) <= s.len(),
        forall|i: int| 0 <= i < run_len(s, p) ==> p(#[trigger] s[i]),
        run_len(s, p) < s.len() ==> !p(s[run_len(s, p) as int]),
    decreases s.len(),
{
    if s.len() != 0 && p(s[0]) {
        lemma_run_len_maximal(s.skip(1), p);
        assert forall|i: int| 0 <= i < run_len(s, p) implies p(#[trigger] s[i]) by {
            if i >= 1 {
                assert(s[i] == s.skip(1)[i - 1]);
                assert(p(s.skip(1)[i - 1]));
            }
        }
    }
}

/// A maximal leading run is characterized by its two defining facts: every
/// character before `k` satisfies `p`, and `k` is the end of the text or the
/// character at `k` does not. Any `k` with both facts equals `run_len`.
pub proof fn lemma_run_len_unique(s: Seq<char>, p: spec_fn(char) -> bool, k: int)
    requires
        0 <= k <= s.len(),
        forall|i: int| 0 <= i < k ==> p(#[trigger] s[i]),
        k == s.len() || !p(s[k]),
    ensures
        k == run_len(s, p),
    decreases s.len(),
{
    if k == 0 {
    } else {
        assert(p(s[0]));
        lemma_run_len_unique(s.skip(1), p, k - 1);
    }
}

/// The partition of `s` into maximal runs under `p` and its complement,
/// starting with the (possibly empty) run under `p` and alternating from
/// there. Each run after the first is non-empty, so the partition is finite.
pub open spec fn runs(s: Seq<char>, p: spec_fn(char) -> bool) -> Seq<Seq<char>>
    decreases s.len(), (if run_len(s, p) == 0 { 1int } else { 0int }) via runs_decreases
{
    if s.len() == 0 {
        seq![]
    } else if run_len(s, p) == 0 {
        runs(s, |c: char| !p(c))
    } else {
        seq![s.take(run_len(s, p) as int)] + runs(s.skip(run_len(s, p) as int), |c: char| !p(c))
    }
}

#[via_fn]
proof fn runs_decreases(s: Seq<char>, p: spec_fn(char) -> bool) {
    if s.len() != 0 {
        if run_len(s, p) == 0 {
            assert(!p(s[0]));
            assert(run_len(s, |c: char| !p(c)) != 0);
        } else {
            lemma_run_len_maximal(s, p);
        }
    }
}

/// Repeated maximal-run extraction under complementary predicates fully
/// partitions the text: concatenating the runs reconstructs it, no character
/// lost or duplicated.
pub proof fn lemma_runs_reconstruct(s: Seq<char>, p: spec_fn(char) -> bool)
    ensures
        runs(s, p).flatten() == s,
    decreases s.len(), (if run_len(s, p) == 0 { 1int } else { 0int }),
{
    if s.len() == 0 {
        assert(runs(s, p).flatten() =~= s);
    } else if run_len(s, p) == 0 {
        assert(!p(s[0]));
        assert(run_len(s, |c: char| !p(c)) != 0);
        lemma_runs_reconstruct(s, |c: char| !p(c));
    } else {
        let k = run_len(s, p) as int;
        lemma_run_len_maximal(s, p);
        lemma_runs_reconstruct(s.skip(k), |c: char| !p(c));
        let rest = runs(s.skip(k), |c: char| !p(c));
        let whole = seq![s.take(k)] + rest;
        assert(whole.first() == s.take(k));
        assert(whole.drop_first() =~= rest);
        assert(runs(s, p).flatten() == s.take(k) + rest.flatten());
        assert(s.take(k) + s.skip(k) =~= s);
    }
}

/// Every run in the partition after the first is non-empty: each one starts
/// with a character on which the previous run's predicate just failed, so the
/// partition of a finite text never stalls.
pub proof fn lemma_runs_nonempty(s: Seq<char>, p: spec_fn(char) -> bool)
    ensures
        forall|i: int| 1 <= i < runs(s, p).len() ==> #[trigger] runs(s, p)[i].len() > 0,
    decreases s.len(), (if run_len(s, p) == 0 { 1int } else { 0int }),
{
    if s.len() == 0 {
    } else if run_len(s, p) == 0 {
        assert(!p(s[0]));
        assert(run_len(s, |c: char| !p(c)) != 0);
        lemma_runs_nonempty(s, |c: char| !p(c));
        let whole = runs(s, |c: char| !p(c));
        assert(runs(s, p) == whole);
        assert forall|i: int| 1 <= i < runs(s, p).len() implies #[trigger] runs(s, p)[i].len()
            > 0 by {
            assert(whole[i].len() > 0);
        }
    } else {
        let k = run_len(s, p) as int;
        lemma_run_len_maximal(s, p);
        let rest = runs(s.skip(k), |c: char| !p(c));
        lemma_runs_nonempty(s.skip(k), |c: char| !p(c));
        if s.skip(k).len() > 0 {
            assert(!p(s.skip(k)[0]));
            assert(run_len(s.skip(k), |c: char| !p(c)) != 0);
            lemma_run_len_maximal(s.skip(k), |c: char| !p(c));
            assert(rest[0].len() > 0);
        }
        assert forall|i: int| 1 <= i < runs(s, p).len() implies #[trigger] runs(s, p)[i].len()
            > 0 by {
            assert(runs(s, p)[i] == rest[i - 1]);
        }
    }
}

/// No characters are lost or duplicated by the cursor: the characters consumed
/// since the mark, concatenated with the remaining characters, are exactly the
/// suffix of the original text that starts at the mark.
pub proof fn lemma_consumed_remaining(lx: Lexer)
    requires
        lx.wf(),
    ensures
        lx.consumed_text() + lx.remaining_text() == lx.full_text().subrange(
            lx.mark_pos(),
            lx.full_text().len() as int,
        ),
{
    assert(lx.consumed_text() + lx.remaining_text() =~= lx.full_text().subrange(
        lx.mark_pos(),
        lx.full_text().len() as int,
    ));
}

} // verus!
