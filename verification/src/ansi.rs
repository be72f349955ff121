//! The ANSI escape sequence grammar, built on the [`Lexer`] cursor.
//!
//! Three productions are recognized: a generic escape sequence `ESC I* F`, a
//! control sequence `ESC '[' P* I* F`, and a string run closed by a standard
//! terminator (`BEL` or `ESC '\'`). A top-level dispatcher tells the three
//! apart with a single lookahead parse against a copy of the cursor.
//!
//! Each production's contract is stated against a spec-level model of the
//! grammar: for the remaining text `rem` of the cursor, spec functions give
//! whether the production succeeds, how many characters it consumes (on
//! success and on failure alike), and the fields of the parsed value.

use crate::error::Error;
use crate::lex::Lexer;
use crate::lex::run_len;
use crate::lex::lemma_run_len_unique;
use vstd::prelude::*;
use vstd::string::StrSliceExecFns;

verus! {

/// An ANSI escape sequence.
#[derive(PartialEq, Eq, Debug)]
pub enum Sequence<'a> {
    CSI(ControlSequence<'a>),
    OSC(AnsiSequence<'a>, AnsiString<'a>),
    Regular(AnsiSequence<'a>),
}

/// A regular ANSI escape sequence:
///
/// ```text
/// ESC I* F
/// ```
#[derive(PartialEq, Eq, Debug)]
pub struct AnsiSequence<'a> {
    pub intermediates: &'a str,
    pub finalizer: &'a str,
}

/// An ANSI control sequence.
///
/// ```text
/// ESC '['
/// ```
///
/// CSI format:
///
/// ```text
/// P* I* F
/// ```
#[derive(PartialEq, Eq, Debug)]
pub struct ControlSequence<'a> {
    pub parameters: &'a str,
    pub intermediates: &'a str,
    pub finalizer: &'a str,
}

/// A variable-length string, as defined in the ANSI standard.
///
/// This is implicitly created by a preceding sequence.
/// The string is terminated by `ESC '\'`, or `BEL`.
#[derive(PartialEq, Eq, Debug)]
pub struct AnsiString<'a> {
    pub text: &'a str,
    pub terminator: &'a str,
}

/// The ANSI sequence opener: the ESC control character.
pub open spec fn spec_is_sequence_opener(c: char) -> bool {
    c == '\x1B'
}

/// The generic finalizer class: ASCII 0x30 through 0x7E inclusive.
pub open spec fn spec_is_sequence_finalizer(c: char) -> bool {
    0x30 <= c as int <= 0x7E
}

/// The generic intermediate class: ASCII 0x20 through 0x2F inclusive.
pub open spec fn spec_is_sequence_intermediate(c: char) -> bool {
    0x20 <= c as int <= 0x2F
}

/// The CSI finalizer class: ASCII 0x40 through 0x7E inclusive.
pub open spec fn spec_is_csi_finalizer(c: char) -> bool {
    0x40 <= c as int <= 0x7E
}

/// The CSI parameter class: ASCII 0x30 through 0x3F inclusive.
pub open spec fn spec_is_csi_parameter(c: char) -> bool {
    0x30 <= c as int <= 0x3F
}

/// The CSI intermediate class: ASCII 0x20 through 0x2F inclusive.
pub open spec fn spec_is_csi_intermediate(c: char) -> bool {
    0x20 <= c as int <= 0x2F
}

/// An opener of the ST string terminator: BEL, or the sequence opener.
pub open spec fn spec_is_st_opener(c: char) -> bool {
    c == '\x07' || spec_is_sequence_opener(c)
}

/// Checks if a character is an ANSI sequence opener.
///
/// The opener is the ESC control character, and denotes the beginning of an
/// escape sequence. It is followed by zero or more intermediate bytes, which
/// are followed by a finalizer.
pub fn is_sequence_opener(c: char) -> (r: bool)
    ensures
        r == spec_is_sequence_opener(c),
{
    c == '\x1B'
}

/// Checks if a character is an ANSI sequence finalizer byte.
///
/// The finalizer is an ASCII character between 0x30 and 0x7E inclusive, and it
/// denotes the end of an ANSI escape sequence.
pub fn is_sequence_finalizer(c: char) -> (r: bool)
    ensures
        r == spec_is_sequence_finalizer(c),
{
    let u = c as u32;
    0x30 <= u && u <= 0x7E
}

/// Checks if a character is an ANSI sequence intermediate byte.
///
/// Intermediate bytes are ASCII characters between 0x20 and 0x2F inclusive.
/// Zero or more may be located between the escape character and the finalizer.
pub fn is_sequence_intermediate(c: char) -> (r: bool)
    ensures
        r == spec_is_sequence_intermediate(c),
{
    let u = c as u32;
    0x20 <= u && u <= 0x2F
}

/// Checks if a character is an ANSI control sequence finalizer byte.
///
/// The control sequence finalizer is an ASCII character between 0x40 and 0x7E
/// inclusive. It is used similarly to the regular ANSI finalizer, but
/// specifically for CSI commands.
pub fn is_csi_finalizer(c: char) -> (r: bool)
    ensures
        r == spec_is_csi_finalizer(c),
{
    let u = c as u32;
    0x40 <= u && u <= 0x7E
}

/// Checks if a character is an ANSI control sequence parameter byte.
///
/// The control sequence parameter is an ASCII character between 0x30 and 0x3F
/// inclusive. It is used similarly to the regular ANSI finalizer, but
/// specifically for CSI commands.
pub fn is_csi_parameter(c: char) -> (r: bool)
    ensures
        r == spec_is_csi_parameter(c),
{
    let u = c as u32;
    0x30 <= u && u <= 0x3F
}

/// Checks if a character is an ANSI control sequence intermediate byte.
///
/// Intermediate bytes are ASCII characters between 0x20 and 0x2F inclusive.
pub fn is_csi_intermediate(c: char) -> (r: bool)
    ensures
        r == spec_is_csi_intermediate(c),
{
    let u = c as u32;
    0x20 <= u && u <= 0x2F
}

/// Checks if a character is an opener for the ST sequence.
///
/// On xterm, this is either `ESC \`, or BEL.
pub fn is_st_opener(c: char) -> (r: bool)
    ensures
        r == spec_is_st_opener(c),
{
    c == '\x07' || is_sequence_opener(c)
}

/// The generic intermediate predicate, as a spec-level function value.
pub open spec fn sequence_intermediate_pred() -> spec_fn(char) -> bool {
    |c: char| spec_is_sequence_intermediate(c)
}

/// The length of the run of generic intermediates that follows the opener.
pub open spec fn generic_run(rem: Seq<char>) -> nat {
    run_len(rem.skip(1), sequence_intermediate_pred())
}

/// Whether parsing a generic escape sequence `ESC I* F` out of `rem` succeeds.
pub open spec fn generic_ok(rem: Seq<char>) -> bool {
    &&& rem.len() > 0
    &&& spec_is_sequence_opener(rem[0])
    &&& 1 + generic_run(rem) < rem.len()
    &&& spec_is_sequence_finalizer(rem[1 + generic_run(rem) as int])
}

/// How many characters parsing a generic escape sequence out of `rem`
/// consumes, whether it succeeds or fails.
pub open spec fn generic_adv(rem: Seq<char>) -> int {
    if rem.len() == 0 || !spec_is_sequence_opener(rem[0]) {
        0
    } else if 1 + generic_run(rem) == rem.len() {
        1 + generic_run(rem) as int
    } else {
        2 + generic_run(rem) as int
    }
}

/// The intermediates of the generic escape sequence at the head of `rem`.
pub open spec fn generic_intermediates(rem: Seq<char>) -> Seq<char> {
    rem.subrange(1, 1 + generic_run(rem) as int)
}

/// The finalizer character of the generic escape sequence at the head of
/// `rem`.
pub open spec fn generic_finalizer(rem: Seq<char>) -> char {
    rem[1 + generic_run(rem) as int]
}

impl<'a> AnsiSequence<'a> {
    /// Parses a generic escape sequence `ESC I* F`: one opener, a maximal run
    /// of generic intermediates (possibly empty), then exactly one generic
    /// finalizer taken greedily, so that a mismatched finalizer candidate is
    /// consumed even though the parse fails.
    pub fn parse(lexer: &mut Lexer<'a>) -> (r: Result<AnsiSequence<'a>, Error>)
        requires
            old(lexer).wf(),
        ensures
            final(lexer).wf(),
            final(lexer).full_text() == old(lexer).full_text(),
            final(lexer).mark_pos() == old(lexer).mark_pos(),
            final(lexer).pos() == old(lexer).pos() + generic_adv(old(lexer).remaining_text()),
            r is Ok <==> generic_ok(old(lexer).remaining_text()),
            r matches Ok(a) ==> {
                &&& a.intermediates@ == generic_intermediates(old(lexer).remaining_text())
                &&& a.finalizer@ == seq![generic_finalizer(old(lexer).remaining_text())]
            },
            r matches Err(e) ==> e == Error::InvalidSequence,
    {
        let ghost rem = old(lexer).remaining_text();
        match lexer.extract_one(is_sequence_opener) {
            Ok(_) => (),
            Err(_) => {
                return Err(Error::InvalidSequence);
            },
        }
        let ghost rem1 = lexer.remaining_text();
        let intermediates = match lexer.extract(is_sequence_intermediate) {
            Ok(s) => s,
            Err(_) => {
                proof {
                    lemma_run_len_unique(rem1, sequence_intermediate_pred(), 0);
                }
                return Err(Error::InvalidSequence);
            },
        };
        proof {
            let k = lexer.pos() - old(lexer).pos() - 1;
            assert forall|i: int| 0 <= i < k implies sequence_intermediate_pred()(
                rem1[i],
            ) by {
                assert(call_ensures(is_sequence_intermediate, (rem1[i],), true));
            }
            lemma_run_len_unique(rem1, sequence_intermediate_pred(), k);
            assert(intermediates@ =~= generic_intermediates(rem));
        }
        let finalizer = match lexer.extract_one_greedy(is_sequence_finalizer) {
            Ok(s) => s,
            Err(_) => {
                return Err(Error::InvalidSequence);
            },
        };
        Ok(AnsiSequence { intermediates, finalizer })
    }
}

/// The CSI parameter predicate, as a spec-level function value.
pub open spec fn csi_parameter_pred() -> spec_fn(char) -> bool {
    |c: char| spec_is_csi_parameter(c)
}

/// The CSI intermediate predicate, as a spec-level function value.
pub open spec fn csi_intermediate_pred() -> spec_fn(char) -> bool {
    |c: char| spec_is_csi_intermediate(c)
}

/// The length of the run of CSI parameters that follows `ESC '['`.
pub open spec fn csi_params_run(rem: Seq<char>) -> nat {
    run_len(rem.skip(2), csi_parameter_pred())
}

/// The length of the run of CSI intermediates that follows the parameters.
pub open spec fn csi_inter_run(rem: Seq<char>) -> nat {
    run_len(rem.skip(2 + csi_params_run(rem) as int), csi_intermediate_pred())
}

/// The position in `rem` right after the CSI parameters and intermediates:
/// where the finalizer must stand.
pub open spec fn csi_end(rem: Seq<char>) -> int {
    2 + csi_params_run(rem) as int + csi_inter_run(rem) as int
}

/// Whether parsing a control sequence `ESC '[' P* I* F` out of `rem`
/// succeeds.
pub open spec fn csi_ok(rem: Seq<char>) -> bool {
    &&& rem.len() >= 2
    &&& spec_is_sequence_opener(rem[0])
    &&& rem[1] == '['
    &&& csi_end(rem) < rem.len()
    &&& spec_is_csi_finalizer(rem[csi_end(rem)])
}

/// How many characters parsing a control sequence out of `rem` consumes,
/// whether it succeeds or fails.
pub open spec fn csi_adv(rem: Seq<char>) -> int {
    if rem.len() == 0 || !spec_is_sequence_opener(rem[0]) {
        0
    } else if rem.len() == 1 {
        1
    } else if rem[1] != '[' {
        2
    } else if csi_end(rem) == rem.len() {
        csi_end(rem)
    } else {
        csi_end(rem) + 1
    }
}

/// The parameters of the control sequence at the head of `rem`.
pub open spec fn csi_parameters(rem: Seq<char>) -> Seq<char> {
    rem.subrange(2, 2 + csi_params_run(rem) as int)
}

/// The intermediates of the control sequence at the head of `rem`.
pub open spec fn csi_intermediates(rem: Seq<char>) -> Seq<char> {
    rem.subrange(2 + csi_params_run(rem) as int, csi_end(rem))
}

/// The finalizer character of the control sequence at the head of `rem`.
pub open spec fn csi_finalizer(rem: Seq<char>) -> char {
    rem[csi_end(rem)]
}

impl<'a> ControlSequence<'a> {
    /// Parses a control sequence `ESC '[' P* I* F`: one opener, a one-byte
    /// probe of what follows it (taken greedily through the CSI finalizer
    /// class and checked against `'['`), then the maximal runs of parameters
    /// and intermediates, and exactly one CSI finalizer taken greedily.
    pub fn parse(lexer: &mut Lexer<'a>) -> (r: Result<ControlSequence<'a>, Error>)
        requires
            old(lexer).wf(),
        ensures
            final(lexer).wf(),
            final(lexer).full_text() == old(lexer).full_text(),
            final(lexer).mark_pos() == old(lexer).mark_pos(),
            final(lexer).pos() == old(lexer).pos() + csi_adv(old(lexer).remaining_text()),
            r is Ok <==> csi_ok(old(lexer).remaining_text()),
            r matches Ok(c) ==> {
                &&& c.parameters@ == csi_parameters(old(lexer).remaining_text())
                &&& c.intermediates@ == csi_intermediates(old(lexer).remaining_text())
                &&& c.finalizer@ == seq![csi_finalizer(old(lexer).remaining_text())]
            },
            r matches Err(e) ==> e == Error::InvalidSequence,
    {
        let ghost rem = old(lexer).remaining_text();
        match lexer.extract_one(is_sequence_opener) {
            Ok(_) => (),
            Err(_) => {
                return Err(Error::InvalidSequence);
            },
        }
        let probe = match lexer.extract_one_greedy(is_csi_finalizer) {
            Ok(s) => s,
            Err(_) => {
                return Err(Error::InvalidSequence);
            },
        };
        if probe.get_char(0) == '[' {
            let ghost rem2 = lexer.remaining_text();
            proof {
                assert(rem2 =~= rem.skip(2));
            }
            let parameters = match lexer.extract(is_csi_parameter) {
                Ok(s) => s,
                Err(_) => {
                    proof {
                        lemma_run_len_unique(rem2, csi_parameter_pred(), 0);
                        lemma_run_len_unique(lexer.remaining_text(), csi_intermediate_pred(), 0);
                    }
                    return Err(Error::InvalidSequence);
                },
            };
            proof {
                let kp = lexer.pos() - old(lexer).pos() - 2;
                assert forall|i: int| 0 <= i < kp implies csi_parameter_pred()(rem2[i]) by {
                    assert(call_ensures(is_csi_parameter, (rem2[i],), true));
                }
                lemma_run_len_unique(rem2, csi_parameter_pred(), kp);
                assert(parameters@ =~= csi_parameters(rem));
            }
            let ghost rem3 = lexer.remaining_text();
            proof {
                assert(rem3 =~= rem.skip(2 + csi_params_run(rem) as int));
            }
            let intermediates = match lexer.extract(is_csi_intermediate) {
                Ok(s) => s,
                Err(_) => {
                    proof {
                        lemma_run_len_unique(rem3, csi_intermediate_pred(), 0);
                    }
                    return Err(Error::InvalidSequence);
                },
            };
            proof {
                let ki = lexer.pos() - old(lexer).pos() - 2 - csi_params_run(rem);
                assert forall|i: int| 0 <= i < ki implies csi_intermediate_pred()(rem3[i]) by {
                    assert(call_ensures(is_csi_intermediate, (rem3[i],), true));
                }
                lemma_run_len_unique(rem3, csi_intermediate_pred(), ki as int);
                assert(intermediates@ =~= csi_intermediates(rem));
            }
            let finalizer = match lexer.extract_one_greedy(is_csi_finalizer) {
                Ok(s) => s,
                Err(_) => {
                    return Err(Error::InvalidSequence);
                },
            };
            Ok(ControlSequence { parameters, intermediates, finalizer })
        } else {
            return Err(Error::InvalidSequence);
        }
    }
}

/// The string-run payload predicate, as a spec-level function value: every
/// character that does not open a string terminator.
pub open spec fn not_st_opener_pred() -> spec_fn(char) -> bool {
    |c: char| !spec_is_st_opener(c)
}

/// The length of the string-run payload: the maximal run of characters that
/// do not open a string terminator.
pub open spec fn st_run(rem: Seq<char>) -> nat {
    run_len(rem, not_st_opener_pred())
}

/// Whether parsing a terminated string run out of `rem` succeeds: the payload
/// must be followed by BEL, or by the opener and a literal backslash.
pub open spec fn st_ok(rem: Seq<char>) -> bool {
    let kt = st_run(rem) as int;
    &&& rem.len() > 0
    &&& kt < rem.len()
    &&& (rem[kt] == '\x07' || (rem[kt] == '\x1B' && kt + 1 < rem.len() && rem[kt + 1] == '\\'))
}

/// How many characters parsing a terminated string run out of `rem` consumes,
/// whether it succeeds or fails.
pub open spec fn st_adv(rem: Seq<char>) -> int {
    let kt = st_run(rem) as int;
    if rem.len() == 0 {
        0
    } else if kt == rem.len() {
        kt
    } else if rem[kt] == '\x07' {
        kt + 1
    } else if kt + 1 == rem.len() {
        kt + 1
    } else {
        kt + 2
    }
}

/// The payload of the string run at the head of `rem`.
pub open spec fn st_text(rem: Seq<char>) -> Seq<char> {
    rem.subrange(0, st_run(rem) as int)
}

/// The terminator of the string run at the head of `rem`: the one-character
/// bell form, or the two-character escape form.
pub open spec fn st_terminator(rem: Seq<char>) -> Seq<char> {
    if rem[st_run(rem) as int] == '\x07' {
        seq!['\x07']
    } else {
        seq!['\x1B', '\\']
    }
}

impl<'a> AnsiString<'a> {
    /// Parses a terminated string run: the maximal run of characters that do
    /// not open a terminator (the payload, possibly empty), then the
    /// terminator itself, taken greedily — either BEL, or the escape opener
    /// which must be followed by a literal backslash.
    pub fn parse(lexer: &mut Lexer<'a>) -> (r: Result<AnsiString<'a>, Error>)
        requires
            old(lexer).wf(),
        ensures
            final(lexer).wf(),
            final(lexer).full_text() == old(lexer).full_text(),
            final(lexer).mark_pos() == old(lexer).mark_pos(),
            final(lexer).pos() == old(lexer).pos() + st_adv(old(lexer).remaining_text()),
            r is Ok <==> st_ok(old(lexer).remaining_text()),
            r matches Ok(a) ==> {
                &&& a.text@ == st_text(old(lexer).remaining_text())
                &&& a.terminator@ == st_terminator(old(lexer).remaining_text())
            },
            r matches Err(e) ==> e == Error::InvalidSequence,
    {
        let ghost rem = old(lexer).remaining_text();
        let not_opener = |c: char| -> (r: bool)
            ensures
                r == !spec_is_st_opener(c),
            { !is_st_opener(c) };
        let text = match lexer.extract(not_opener) {
            Ok(s) => s,
            Err(_) => {
                return Err(Error::InvalidSequence);
            },
        };
        proof {
            let kt = lexer.pos() - old(lexer).pos();
            assert forall|i: int| 0 <= i < kt implies not_st_opener_pred()(rem[i]) by {
                assert(call_ensures(not_opener, (rem[i],), true));
            }
            lemma_run_len_unique(rem, not_st_opener_pred(), kt);
        }
        let term = match lexer.extract_one_greedy(is_st_opener) {
            Ok(s) => s,
            Err(_) => {
                return Err(Error::InvalidSequence);
            },
        };
        let t0 = term.get_char(0);
        if t0 == '\x07' {
            proof {
                reveal_strlit("\x07");
                assert(("\x07")@ =~= st_terminator(rem));
            }
            Ok(AnsiString { text, terminator: "\x07" })
        } else if t0 == '\x1B' {
            let backslash = |c: char| -> (r: bool)
                ensures
                    r == (c == '\\'),
                { c == '\\' };
            match lexer.extract_one_greedy(backslash) {
                Ok(_) => {
                    proof {
                        reveal_strlit("\x1B\\");
                        assert(("\x1B\\")@ =~= st_terminator(rem));
                    }
                    Ok(AnsiString { text, terminator: "\x1B\\" })
                },
                Err(_) => {
                    return Err(Error::InvalidSequence);
                },
            }
        } else {
            return Err(Error::InvalidSequence);
        }
    }
}

/// Whether top-level dispatch over `rem` succeeds: a generic-sequence probe
/// must succeed, and where its shape announces a control sequence or a string
/// payload, that production must succeed as well.
pub open spec fn dispatch_ok(rem: Seq<char>) -> bool {
    &&& generic_ok(rem)
    &&& (generic_intermediates(rem).len() == 0 ==> {
        if generic_finalizer(rem) == '[' {
            csi_ok(rem)
        } else if generic_finalizer(rem) == ']' {
            st_ok(rem.skip(generic_adv(rem)))
        } else {
            true
        }
    })
}

/// How many characters top-level dispatch over `rem` consumes, whether it
/// succeeds or fails. A failed lookahead probe consumes nothing: the probe
/// runs against a copy of the cursor.
pub open spec fn dispatch_adv(rem: Seq<char>) -> int {
    if !generic_ok(rem) {
        0
    } else if generic_intermediates(rem).len() != 0 {
        generic_adv(rem)
    } else if generic_finalizer(rem) == '[' {
        csi_adv(rem)
    } else if generic_finalizer(rem) == ']' {
        generic_adv(rem) + st_adv(rem.skip(generic_adv(rem)))
    } else {
        generic_adv(rem)
    }
}

/// The value that a successful top-level dispatch over `rem` yields.
pub open spec fn dispatch_value<'a>(rem: Seq<char>, s: Sequence<'a>) -> bool {
    if generic_intermediates(rem).len() == 0 && generic_finalizer(rem) == '[' {
        &&& s matches Sequence::CSI(c)
        &&& c.parameters@ == csi_parameters(rem)
        &&& c.intermediates@ == csi_intermediates(rem)
        &&& c.finalizer@ == seq![csi_finalizer(rem)]
    } else if generic_intermediates(rem).len() == 0 && generic_finalizer(rem) == ']' {
        &&& s matches Sequence::OSC(a, t)
        &&& a.intermediates@ == generic_intermediates(rem)
        &&& a.finalizer@ == seq![generic_finalizer(rem)]
        &&& t.text@ == st_text(rem.skip(generic_adv(rem)))
        &&& t.terminator@ == st_terminator(rem.skip(generic_adv(rem)))
    } else {
        &&& s matches Sequence::Regular(a)
        &&& a.intermediates@ == generic_intermediates(rem)
        &&& a.finalizer@ == seq![generic_finalizer(rem)]
    }
}

impl<'a> Sequence<'a> {
    /// Top-level dispatch: parses a generic sequence against a copy of the
    /// cursor as a lookahead probe, then decides. Non-empty probed
    /// intermediates mean the sequence is unambiguously regular; otherwise the
    /// probed finalizer decides — `'['` a control sequence, `']'` a generic
    /// header followed by a terminated string run, anything else a regular
    /// sequence. The chosen production is re-parsed against the real cursor.
    pub fn parse(lexer: &mut Lexer<'a>) -> (r: Result<Sequence<'a>, Error>)
        requires
            old(lexer).wf(),
        ensures
            final(lexer).wf(),
            final(lexer).full_text() == old(lexer).full_text(),
            final(lexer).mark_pos() == old(lexer).mark_pos(),
            final(lexer).pos() == old(lexer).pos() + dispatch_adv(old(lexer).remaining_text()),
            r is Ok <==> dispatch_ok(old(lexer).remaining_text()),
            r matches Ok(s) ==> dispatch_value(old(lexer).remaining_text(), s),
            r matches Err(e) ==> e == Error::InvalidSequence,
    {
        let ghost rem = old(lexer).remaining_text();
        let mut lookahead_lexer = *lexer;
        let lookahead = match AnsiSequence::parse(&mut lookahead_lexer) {
            Ok(a) => a,
            Err(e) => {
                return Err(e);
            },
        };
        if lookahead.intermediates.is_empty() {
            let f = lookahead.finalizer.get_char(0);
            if f == '[' {
                match ControlSequence::parse(lexer) {
                    Ok(c) => Ok(Sequence::CSI(c)),
                    Err(e) => Err(e),
                }
            } else if f == ']' {
                let head = match AnsiSequence::parse(lexer) {
                    Ok(a) => a,
                    Err(e) => {
                        return Err(e);
                    },
                };
                proof {
                    assert(lexer.remaining_text() =~= rem.skip(generic_adv(rem)));
                }
                let body = match AnsiString::parse(lexer) {
                    Ok(s) => s,
                    Err(e) => {
                        return Err(e);
                    },
                };
                Ok(Sequence::OSC(head, body))
            } else {
                match AnsiSequence::parse(lexer) {
                    Ok(a) => Ok(Sequence::Regular(a)),
                    Err(e) => Err(e),
                }
            }
        } else {
            match AnsiSequence::parse(lexer) {
                Ok(a) => Ok(Sequence::Regular(a)),
                Err(e) => Err(e),
            }
        }
    }
}

} // verus!

