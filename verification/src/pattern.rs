//! Signed glob patterns and the ordered, last-match-wins path filter.
//!
//! A pattern written `!<glob>` excludes, any other pattern includes.  A path
//! is tested against every pattern in declaration order; the last pattern
//! that matches decides, and a path no pattern matches is excluded.  A path
//! whose bytes cannot be read as text is excluded as well (the filter fails
//! closed).

use vstd::prelude::*;

use vstd::string::StrSliceExecFns;

verus! {

/// What `glob::Pattern::new(pattern).map(|p| p.matches(path)).unwrap_or(false)`
/// returns: whether `path` matches the shell-glob `pattern` under the default
/// match options.  It depends on the two texts alone; a pattern text that does
/// not compile matches nothing.
pub uninterp spec fn glob_match(pattern: Seq<char>, path: Seq<char>) -> bool;

/// Whether `glob::Pattern::new(pattern)` accepts the pattern text; a function
/// of the text alone.
pub uninterp spec fn glob_valid(pattern: Seq<char>) -> bool;

/// What `String::from_utf8` makes of the bytes: the decoded text, or nothing
/// when the bytes are not valid UTF-8; a function of the bytes alone.
pub uninterp spec fn path_as_text(path: Seq<u8>) -> Option<Seq<char>>;

/// Relies on glob::Pattern::new and glob::Pattern::matches: compiling is a
/// deterministic function of the pattern text, matching (with the default
/// `MatchOptions`) a deterministic function of the compiled pattern and the
/// path text, and an uncompilable pattern is taken to match nothing.
#[verifier::external_body]
fn glob_match_exec(pattern: &str, path: &str) -> (r: bool)
    ensures
        r == glob_match(pattern@, path@),
{
    glob::Pattern::new(pattern).map(|p| p.matches(path)).unwrap_or(false)
}

/// Relies on glob::Pattern::new: whether a pattern text compiles depends on
/// that text alone.
#[verifier::external_body]
fn glob_check_exec(pattern: &str) -> (r: bool)
    ensures
        r == glob_valid(pattern@),
{
    glob::Pattern::new(pattern).is_ok()
}

/// Relies on String::from_utf8: whether bytes decode, and to what text,
/// depends on the bytes alone.
#[verifier::external_body]
pub(crate) fn path_text(path: &Vec<u8>) -> (r: Option<String>)
    ensures
        (r is Some) == (path_as_text(path@) is Some),
        r matches Some(s) ==> path_as_text(path@) == Some(s@),
{
    String::from_utf8(path.clone()).ok()
}

/// A user-supplied pattern text was not a valid glob.
#[derive(Clone, Copy, PartialEq, Eq, Structural, Debug)]
pub struct PatternError {
}

/// One filter rule: a glob pattern text and whether a match includes or
/// excludes the path.
pub struct SignedPattern {
    pub is_include: bool,
    pub text: String,
}

pub ghost struct SignedPatternModel {
    pub is_include: bool,
    pub text: Seq<char>,
}

impl View for SignedPattern {
    type V = SignedPatternModel;

    open spec fn view(&self) -> SignedPatternModel {
        SignedPatternModel { is_include: self.is_include, text: self.text@ }
    }
}

/// The pattern text proper of a rule as written: the part after a leading
/// `!`, or the whole text when there is none.
pub open spec fn pattern_text_spec(s: Seq<char>) -> Seq<char> {
    if s.len() > 0 && s[0] == '!' {
        s.skip(1)
    } else {
        s
    }
}

/// Whether a rule as written includes on a match.
pub open spec fn pattern_sign_spec(s: Seq<char>) -> bool {
    !(s.len() > 0 && s[0] == '!')
}

impl SignedPattern {
    /// Parse one rule as written on the command line: a leading `!` makes it
    /// an exclude rule, and the remaining text must be a valid glob.
    pub fn from_str(pattern: &str) -> (r: Result<SignedPattern, PatternError>)
        ensures
            r is Ok <==> glob_valid(pattern_text_spec(pattern@)),
            r matches Ok(p) ==> p@.is_include == pattern_sign_spec(pattern@) && p@.text
                == pattern_text_spec(pattern@),
    {
        let n = pattern.unicode_len();
        let (is_include, text) = if n > 0 && pattern.get_char(0) == '!' {
            (false, pattern.substring_char(1, n).to_string())
        } else {
            (true, pattern.to_string())
        };
        if glob_check_exec(text.as_str()) {
            Ok(SignedPattern { is_include, text })
        } else {
            Err(PatternError {  })
        }
    }
}

pub open spec fn pats_model(ps: Seq<SignedPattern>) -> Seq<SignedPatternModel> {
    ps.map_values(|p: SignedPattern| p@)
}

/// The fold the filter computes: a running decision seeded "exclude", set to
/// the sign of every pattern that matches, in order.
pub open spec fn fold_match(pats: Seq<SignedPatternModel>, path: Seq<char>) -> bool
    decreases pats.len(),
{
    if pats.len() == 0 {
        false
    } else {
        if glob_match(pats.last().text, path) {
            pats.last().is_include
        } else {
            fold_match(pats.drop_last(), path)
        }
    }
}

/// The filter's verdict on a path given as bytes: excluded outright when the
/// bytes are not text, otherwise the fold over the pattern list.
pub open spec fn match_path_spec(pats: Seq<SignedPatternModel>, path: Seq<u8>) -> bool {
    match path_as_text(path) {
        Some(t) => fold_match(pats, t),
        None => false,
    }
}

/// Decide whether a path is in scope: every pattern is tested in order and
/// the last match wins; with no patterns, or an unreadable path, the path is
/// excluded.
pub fn matches_some_path(signed_patterns: &Vec<SignedPattern>, path: &Vec<u8>) -> (r: bool)
    ensures
        r == match_path_spec(pats_model(signed_patterns@), path@),
{
    let text = match path_text(path) {
        Some(t) => t,
        None => {
            return false;
        },
    };
    let ghost pats = pats_model(signed_patterns@);
    let mut is_match = false;
    let mut i: usize = 0;
    while i < signed_patterns.len()
        invariant
            i <= signed_patterns@.len(),
            pats == pats_model(signed_patterns@),
            path_as_text(path@) == Some(text@),
            is_match == fold_match(pats.take(i as int), text@),
        decreases signed_patterns.len() - i,
    {
        let p = &signed_patterns[i];
        if glob_match_exec(p.text.as_str(), text.as_str()) {
            is_match = p.is_include;
        }
        proof {
            assert(pats.take(i + 1).drop_last() =~= pats.take(i as int));
            assert(pats.take(i + 1).last() == pats[i as int]);
        }
        i = i + 1;
    }
    proof {
        assert(pats.take(pats.len() as int) =~= pats);
    }
    is_match
}

/// With no patterns supplied every path is excluded: the filter denies by
/// default.
pub proof fn lemma_default_deny(path: Seq<u8>)
    ensures
        !match_path_spec(Seq::<SignedPatternModel>::empty(), path),
{
}

/// Order decides, not specificity: if some pattern matches the path and no
/// later pattern does, the filter returns that pattern's sign, whatever came
/// before it.
pub proof fn lemma_last_match_wins(pats: Seq<SignedPatternModel>, text: Seq<char>, i: int)
    requires
        0 <= i < pats.len(),
        glob_match(pats[i].text, text),
        forall|j: int| i < j < pats.len() ==> !glob_match(#[trigger] pats[j].text, text),
    ensures
        fold_match(pats, text) == pats[i].is_include,
    decreases pats.len(),
{
    if i == pats.len() - 1 {
    } else {
        assert(pats.drop_last()[i] == pats[i]);
        assert forall|j: int| i < j < pats.drop_last().len() implies !glob_match(
            #[trigger] pats.drop_last()[j].text,
            text,
        ) by {
            assert(pats.drop_last()[j] == pats[j]);
        }
        lemma_last_match_wins(pats.drop_last(), text, i);
    }
}

/// A path no pattern matches is excluded.
pub proof fn lemma_no_match_excluded(pats: Seq<SignedPatternModel>, text: Seq<char>)
    requires
        forall|j: int| 0 <= j < pats.len() ==> !glob_match(#[trigger] pats[j].text, text),
    ensures
        !fold_match(pats, text),
    decreases pats.len(),
{
    if pats.len() > 0 {
        assert forall|j: int| 0 <= j < pats.drop_last().len() implies !glob_match(
            #[trigger] pats.drop_last()[j].text,
            text,
        ) by {
            assert(pats.drop_last()[j] == pats[j]);
        }
        lemma_no_match_excluded(pats.drop_last(), text);
    }
}

} // verus!
