//! Versions, and the lenient reading of the versions that addon authors write.
//!
//! Authors write `1.2` or `v1.2.3` where a semantic version has exactly three
//! numbers. The strict grammar is that of the `semver_parser` crate; this
//! module rewrites a text that the strict parser refuses, a bounded number of
//! times, until it is accepted or no rewriting is left.

use crate::error::{Error, ErrorView};
use crate::text::{
    chars_of, cut, join, join_with, texts,
};
use semver_parser::parser::Error as Refusal;
use semver_parser::version::{parse as parse_semver, Identifier as SemverIdentifier};
use vstd::prelude::*;

verus! {

/// One part of a version's pre-release or build metadata.
#[derive(Debug, PartialEq, Eq)]
pub enum Identifier {
    /// A part made of digits only: a number.
    Numeric(u64),
    /// A part with letters in it.
    AlphaNumeric(String),
}

/// What an [`Identifier`] stands for.
pub ghost enum IdentifierView {
    Numeric(u64),
    AlphaNumeric(Seq<char>),
}

impl View for Identifier {
    type V = IdentifierView;

    open spec fn view(&self) -> IdentifierView {
        match self {
            Identifier::Numeric(n) => IdentifierView::Numeric(*n),
            Identifier::AlphaNumeric(s) => IdentifierView::AlphaNumeric(s@),
        }
    }
}

/// A semantic version.
#[derive(Debug, PartialEq, Eq)]
pub struct Version {
    pub major: u64,
    pub minor: u64,
    pub patch: u64,
    /// The pre-release parts, which follow a `-`.
    pub pre: Vec<Identifier>,
    /// The build parts, which follow a `+`.
    pub build: Vec<Identifier>,
}

/// What a [`Version`] stands for.
pub ghost struct VersionView {
    pub major: u64,
    pub minor: u64,
    pub patch: u64,
    pub pre: Seq<IdentifierView>,
    pub build: Seq<IdentifierView>,
}

/// The views of the identifiers in `ids`.
pub open spec fn identifier_views(ids: Seq<Identifier>) -> Seq<IdentifierView> {
    ids.map_values(|i: Identifier| i@)
}

impl View for Version {
    type V = VersionView;

    open spec fn view(&self) -> VersionView {
        VersionView {
            major: self.major,
            minor: self.minor,
            patch: self.patch,
            pre: identifier_views(self.pre@),
            build: identifier_views(self.build@),
        }
    }
}

/// How the strict parser answers a text.
#[derive(Debug, PartialEq, Eq)]
pub enum Strict {
    /// The text is a semantic version.
    Version(Version),
    /// The text ended where more was expected.
    UnexpectedEnd,
    /// The text holds something else than what was expected at some place.
    UnexpectedToken,
    /// The text is refused for another reason.
    Rejected,
}

/// What a [`Strict`] stands for.
pub ghost enum StrictView {
    Version(VersionView),
    UnexpectedEnd,
    UnexpectedToken,
    Rejected,
}

impl View for Strict {
    type V = StrictView;

    open spec fn view(&self) -> StrictView {
        match self {
            Strict::Version(v) => StrictView::Version(v@),
            Strict::UnexpectedEnd => StrictView::UnexpectedEnd,
            Strict::UnexpectedToken => StrictView::UnexpectedToken,
            Strict::Rejected => StrictView::Rejected,
        }
    }
}

/// How many hyphens a run of letters, digits and hyphens may hold for the
/// strict parser to be asked.
pub const HYPHEN_LIMIT: usize = 255;

/// Whether `c` can stand in an identifier with hyphens: whether it is a
/// letter or a digit of ASCII, or a hyphen.
pub open spec fn is_identifier_char(c: char) -> bool {
    ||| '0' <= c <= '9'
    ||| 'a' <= c <= 'z'
    ||| 'A' <= c <= 'Z'
    ||| c == '-'
}

/// How many hyphens stand in the longest run of identifier characters that
/// `s` ends with.
pub open spec fn closing_hyphens(s: Seq<char>) -> nat
    decreases s.len(),
{
    if s.len() == 0 || !is_identifier_char(s.last()) {
        0
    } else if s.last() == '-' {
        closing_hyphens(s.drop_last()) + 1
    } else {
        closing_hyphens(s.drop_last())
    }
}

/// The greatest number of hyphens that a run of identifier characters in
/// `s` holds.
pub open spec fn most_hyphens(s: Seq<char>) -> nat
    decreases s.len(),
{
    if s.len() == 0 {
        0
    } else if closing_hyphens(s) > most_hyphens(s.drop_last()) {
        closing_hyphens(s)
    } else {
        most_hyphens(s.drop_last())
    }
}

/// The answer of `semver_parser::version::parse` to a text.
pub uninterp spec fn strict_outcome(text: Seq<char>) -> StrictView;

/// Asks `semver_parser::version::parse` what `text` is.
///
/// Not proved: that the answer depends on the characters of `text` alone,
/// which is what equating it with `strict_outcome` claims. The parser
/// panics on an identifier of more than 256 parts joined by hyphens. Such
/// an identifier is a run of letters, digits and hyphens with more than
/// 255 hyphens in it, which the text must not hold.
#[verifier::external_body]
fn strict_parse(text: &str) -> (outcome: Strict)
    requires
        most_hyphens(text@) <= HYPHEN_LIMIT,
    ensures
        outcome@ == strict_outcome(text@),
{
    let own = |i: SemverIdentifier| match i {
        SemverIdentifier::Numeric(n) => Identifier::Numeric(n),
        SemverIdentifier::AlphaNumeric(s) => Identifier::AlphaNumeric(s),
    };
    match parse_semver(text) {
        Ok(v) => Strict::Version(Version {
            major: v.major, minor: v.minor, patch: v.patch,
            pre: v.pre.into_iter().map(own).collect(),
            build: v.build.into_iter().map(own).collect(),
        }),
        Err(Refusal::UnexpectedEnd) => Strict::UnexpectedEnd,
        Err(Refusal::UnexpectedToken(_)) => Strict::UnexpectedToken,
        Err(_) => Strict::Rejected,
    }
}

/// What to do with a text once the strict parser has answered.
#[derive(Debug, PartialEq, Eq)]
pub enum Step {
    /// The text was accepted: this is its version.
    Done(Version),
    /// The text was refused in a way that a rewriting may mend: ask again
    /// with this text.
    Retry(String),
    /// The text was refused for good.
    Fail,
}

/// What a [`Step`] stands for.
pub ghost enum StepView {
    Done(VersionView),
    Retry(Seq<char>),
    Fail,
}

impl View for Step {
    type V = StepView;

    open spec fn view(&self) -> StepView {
        match self {
            Step::Done(v) => StepView::Done(v@),
            Step::Retry(text) => StepView::Retry(text@),
            Step::Fail => StepView::Fail,
        }
    }
}

/// The suffix that supplies a missing number.
pub open spec fn zero_suffix() -> Seq<char> {
    seq!['.', '0']
}

/// `text` without its first character.
pub open spec fn without_first(text: Seq<char>) -> Seq<char> {
    if text.len() > 0 {
        text.drop_first()
    } else {
        text
    }
}

/// The step that follows the strict parser's answer to `text`: a text that
/// ended too early gets the suffix `.0`, a text with an unexpected token
/// loses its first character, and any other refusal is final.
pub open spec fn step_of(text: Seq<char>, outcome: StrictView) -> StepView {
    match outcome {
        StrictView::Version(v) => StepView::Done(v),
        StrictView::UnexpectedEnd => StepView::Retry(text + zero_suffix()),
        StrictView::UnexpectedToken => StepView::Retry(without_first(text)),
        StrictView::Rejected => StepView::Fail,
    }
}

/// The version that `text` is brought to with no more than `retries`
/// rewritings, if it is brought to one.
pub open spec fn normalize(text: Seq<char>, retries: nat) -> Option<VersionView>
    decreases retries,
{
    match step_of(text, strict_outcome(text)) {
        StepView::Done(v) => Some(v),
        StepView::Retry(next) => if retries > 0 {
            normalize(next, (retries - 1) as nat)
        } else {
            None
        },
        StepView::Fail => None,
    }
}

/// The version that the raw text of a version tag declares, if any.
///
/// The text is rewritten no more often than it has characters. A text in
/// which a run of letters, digits and hyphens holds more hyphens than
/// `HYPHEN_LIMIT` declares none.
pub open spec fn lenient_version(raw: Seq<char>) -> Option<VersionView> {
    if most_hyphens(raw) <= HYPHEN_LIMIT {
        normalize(raw, raw.len())
    } else {
        None
    }
}

/// Decides what follows the strict parser's answer `outcome` to `text`.
pub fn next_step(text: &str, outcome: Strict) -> (step: Step)
    ensures
        step@ == step_of(text@, outcome@),
{
    match outcome {
        Strict::Version(v) => Step::Done(v),
        Strict::UnexpectedEnd => {
            proof {
                reveal_strlit(".0");
            }
            assert(".0"@ == zero_suffix());
            Step::Retry(String::from_str(text).concat(".0"))
        },
        Strict::UnexpectedToken => {
            let len = text.unicode_len();
            if len > 0 {
                Step::Retry(cut(text, 1, len))
            } else {
                Step::Retry(String::from_str(text))
            }
        },
        Strict::Rejected => Step::Fail,
    }
}

/// Reads the version that `raw` declares, leniently.
///
/// Fails with `VersionUnparseable`, which holds `raw`, exactly where
/// `lenient_version` finds no version.
pub fn parse_version(raw: &str) -> (parsed: Result<Version, Error>)
    ensures
        match parsed {
            Ok(v) => lenient_version(raw@) == Some(v@),
            Err(e) => lenient_version(raw@) is None && e@ == ErrorView::VersionUnparseable(raw@),
        },
{
    let cs = chars_of(raw);
    if count_most_hyphens(&cs) > HYPHEN_LIMIT {
        return Err(Error::VersionUnparseable(String::from_str(raw)));
    }
    let mut retries: usize = cs.len();
    let mut text: String = String::from_str(raw);
    loop
        invariant
            most_hyphens(text@) <= HYPHEN_LIMIT,
            lenient_version(raw@) == normalize(text@, retries as nat),
        decreases retries,
    {
        let outcome = strict_parse(text.as_str());
        match next_step(text.as_str(), outcome) {
            Step::Done(v) => {
                return Ok(v);
            },
            Step::Fail => {
                return Err(Error::VersionUnparseable(String::from_str(raw)));
            },
            Step::Retry(next) => {
                if retries == 0 {
                    return Err(Error::VersionUnparseable(String::from_str(raw)));
                }
                proof {
                    lemma_rewriting_lengthens_no_run(text@, strict_outcome(text@));
                }
                retries -= 1;
                text = next;
            },
        }
    }
}

/// The greatest number of hyphens that a run of identifier characters
/// among `cs` holds.
fn count_most_hyphens(cs: &Vec<char>) -> (most: usize)
    ensures
        most == most_hyphens(cs@),
{
    let mut most: usize = 0;
    let mut closing: usize = 0;
    let mut at: usize = 0;
    while at < cs.len()
        invariant
            at <= cs.len(),
            closing <= at,
            most <= at,
            closing == closing_hyphens(cs@.take(at as int)),
            most == most_hyphens(cs@.take(at as int)),
        decreases cs.len() - at,
    {
        assert(cs@.take(at as int + 1).drop_last() == cs@.take(at as int));
        let c = cs[at];
        if c == '-' {
            closing += 1;
        } else if !(('0' <= c && c <= '9') || ('a' <= c && c <= 'z') || ('A' <= c && c <= 'Z')) {
            closing = 0;
        }
        if closing > most {
            most = closing;
        }
        at += 1;
    }
    assert(cs@.take(at as int) == cs@);
    most
}

/// Without its first character a text ends with no more hyphens in a run
/// than before.
proof fn lemma_closing_hyphens_without_first(s: Seq<char>)
    requires
        s.len() > 0,
    ensures
        closing_hyphens(s.drop_first()) <= closing_hyphens(s),
    decreases s.len(),
{
    if s.len() > 1 {
        let t = s.drop_first();
        assert(t.last() == s.last());
        assert(t.drop_last() == s.drop_last().drop_first());
        lemma_closing_hyphens_without_first(s.drop_last());
    }
}

/// Without its first character a text holds no run with more hyphens than
/// before.
proof fn lemma_most_hyphens_without_first(s: Seq<char>)
    requires
        s.len() > 0,
    ensures
        most_hyphens(s.drop_first()) <= most_hyphens(s),
    decreases s.len(),
{
    if s.len() > 1 {
        let t = s.drop_first();
        assert(t.drop_last() == s.drop_last().drop_first());
        lemma_most_hyphens_without_first(s.drop_last());
        lemma_closing_hyphens_without_first(s);
    }
}

/// A rewriting never gives a text a run with more hyphens than it had.
pub proof fn lemma_rewriting_lengthens_no_run(text: Seq<char>, outcome: StrictView)
    ensures
        step_of(text, outcome) matches StepView::Retry(next) ==> most_hyphens(next)
            <= most_hyphens(text),
{
    match outcome {
        StrictView::UnexpectedEnd => {
            let dotted = text.push('.');
            let next = dotted.push('0');
            assert(text + zero_suffix() == next);
            assert(dotted.drop_last() == text);
            assert(next.drop_last() == dotted);
            assert(closing_hyphens(dotted) == 0);
            assert(closing_hyphens(next) == 0);
            assert(most_hyphens(dotted) == most_hyphens(text));
            assert(most_hyphens(next) == most_hyphens(dotted));
        },
        StrictView::UnexpectedToken => {
            if text.len() > 0 {
                lemma_most_hyphens_without_first(text);
            }
        },
        _ => {},
    }
}

/// A text that the strict parser accepts declares the version that the
/// parser found in it, with no rewriting.
pub proof fn lemma_strict_version_is_kept(raw: Seq<char>)
    requires
        most_hyphens(raw) <= HYPHEN_LIMIT,
        strict_outcome(raw) is Version,
    ensures
        lenient_version(raw) == Some(strict_outcome(raw)->Version_0),
{
}

/// The character that writes the digit `d`.
pub open spec fn digit(d: nat) -> char {
    if d == 0 {
        '0'
    } else if d == 1 {
        '1'
    } else if d == 2 {
        '2'
    } else if d == 3 {
        '3'
    } else if d == 4 {
        '4'
    } else if d == 5 {
        '5'
    } else if d == 6 {
        '6'
    } else if d == 7 {
        '7'
    } else if d == 8 {
        '8'
    } else {
        '9'
    }
}

/// The number `n` written in decimal digits, without leading zeros.
pub open spec fn decimal(n: nat) -> Seq<char>
    decreases n,
{
    if n < 10 {
        seq![digit(n)]
    } else {
        decimal(n / 10).push(digit(n % 10))
    }
}

/// An identifier as it is written in a version.
pub open spec fn identifier_text(id: IdentifierView) -> Seq<char> {
    match id {
        IdentifierView::Numeric(n) => decimal(n as nat),
        IdentifierView::AlphaNumeric(s) => s,
    }
}

/// Each of the identifiers as it is written in a version.
pub open spec fn identifier_texts(ids: Seq<IdentifierView>) -> Seq<Seq<char>> {
    ids.map_values(|id: IdentifierView| identifier_text(id))
}

/// Identifiers as they are written in a version: with dots between them.
pub open spec fn identifiers_text(ids: Seq<IdentifierView>) -> Seq<char> {
    join(identifier_texts(ids), seq!['.'])
}

/// A version as it is written: the three numbers with dots between them,
/// then the pre-release parts behind a `-` and the build parts behind a
/// `+`, where there are any.
pub open spec fn version_text(v: VersionView) -> Seq<char> {
    decimal(v.major as nat) + seq!['.'] + decimal(v.minor as nat) + seq!['.'] + decimal(
        v.patch as nat,
    ) + if v.pre.len() > 0 {
        seq!['-'] + identifiers_text(v.pre)
    } else {
        Seq::empty()
    } + if v.build.len() > 0 {
        seq!['+'] + identifiers_text(v.build)
    } else {
        Seq::empty()
    }
}

/// The digit `d` as a text of one character.
fn digit_text(d: u64) -> (text: &'static str)
    requires
        d < 10,
    ensures
        text@ == seq![digit(d as nat)],
{
    proof {
        reveal_strlit("0");
        reveal_strlit("1");
        reveal_strlit("2");
        reveal_strlit("3");
        reveal_strlit("4");
        reveal_strlit("5");
        reveal_strlit("6");
        reveal_strlit("7");
        reveal_strlit("8");
        reveal_strlit("9");
    }
    if d == 0 {
        "0"
    } else if d == 1 {
        "1"
    } else if d == 2 {
        "2"
    } else if d == 3 {
        "3"
    } else if d == 4 {
        "4"
    } else if d == 5 {
        "5"
    } else if d == 6 {
        "6"
    } else if d == 7 {
        "7"
    } else if d == 8 {
        "8"
    } else {
        "9"
    }
}

/// Writes `n` in decimal digits.
pub fn decimal_text(n: u64) -> (text: String)
    ensures
        text@ == decimal(n as nat),
    decreases n,
{
    if n < 10 {
        String::from_str(digit_text(n))
    } else {
        decimal_text(n / 10).concat(digit_text(n % 10))
    }
}

/// Writes identifiers with dots between them.
fn identifiers_to_string(ids: &Vec<Identifier>) -> (text: String)
    ensures
        text@ == identifiers_text(identifier_views(ids@)),
{
    let mut parts: Vec<String> = Vec::new();
    let mut at: usize = 0;
    let ghost wanted = identifier_texts(identifier_views(ids@));
    while at < ids.len()
        invariant
            at <= ids.len(),
            wanted == identifier_texts(identifier_views(ids@)),
            texts(parts@) == wanted.take(at as int),
        decreases ids.len() - at,
    {
        let part = match &ids[at] {
            Identifier::Numeric(n) => decimal_text(*n),
            Identifier::AlphaNumeric(s) => s.clone(),
        };
        assert(part@ == wanted[at as int]);
        let ghost before = parts@;
        parts.push(part);
        assert(texts(parts@) == texts(before).push(part@));
        at += 1;
    }
    assert(wanted.take(at as int) == wanted);
    proof {
        reveal_strlit(".");
    }
    assert("."@ == seq!['.']);
    join_with(&parts, ".")
}

impl Version {
    /// Writes the version as text.
    pub fn to_string(&self) -> (text: String)
        ensures
            text@ == version_text(self@),
    {
        proof {
            reveal_strlit(".");
            reveal_strlit("-");
            reveal_strlit("+");
        }
        let mut text = decimal_text(self.major);
        text.append(".");
        text.append(decimal_text(self.minor).as_str());
        text.append(".");
        text.append(decimal_text(self.patch).as_str());
        if self.pre.len() > 0 {
            text.append("-");
            text.append(identifiers_to_string(&self.pre).as_str());
        }
        if self.build.len() > 0 {
            text.append("+");
            text.append(identifiers_to_string(&self.build).as_str());
        }
        text
    }
}

} // verus!
