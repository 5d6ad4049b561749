use vstd::prelude::*;

verus! {

/// Input formats the viewer understands. There is exactly one structural
/// format today; converters for further formats would feed the same tree
/// model.
#[derive(Clone, Copy, PartialEq, Eq, Structural, Debug)]
pub enum Format {
    Sexp,
}

/// Error for a format name that is not recognized; holds the offending name.
#[derive(Debug)]
pub struct FormatFromStrError(pub String);

/// Two characters match after ASCII case folding: they are equal, or they are
/// the upper- and lower-case forms of one ASCII letter (32 code points apart).
pub open spec fn ascii_char_eq_fold(a: char, b: char) -> bool {
    ||| a == b
    ||| ('A' as int <= a as int <= 'Z' as int && b as int == a as int + 32)
    ||| ('A' as int <= b as int <= 'Z' as int && a as int == b as int + 32)
}

/// Two strings match after ASCII case folding, position by position.
pub open spec fn ascii_eq_fold(a: Seq<char>, b: Seq<char>) -> bool {
    a.len() == b.len() && forall|i: int|
        0 <= i < a.len() ==> ascii_char_eq_fold(a[i], b[i])
}

/// Relies on str::eq_ignore_ascii_case: true exactly when the two strings are
/// an ASCII case-insensitive match (only ASCII letters fold; all other
/// characters must be equal).
pub assume_specification[ str::eq_ignore_ascii_case ](s: &str, other: &str) -> (r: bool)
    ensures
        r == ascii_eq_fold(s@, other@),
;

impl Default for Format {
    /// The one structural format is the default.
    fn default() -> (r: Self)
        ensures
            r == Format::Sexp,
    {
        Format::Sexp
    }
}

impl Format {
    /// The format's display name.
    pub fn name(&self) -> (r: &'static str)
        ensures
            r@ == "Sexp"@,
    {
        "Sexp"
    }

    /// Parse a format name, case-insensitively: only the structural format's
    /// name is accepted; anything else is an error carrying the name back.
    pub fn from_str(s: &str) -> (r: Result<Format, FormatFromStrError>)
        ensures
            r is Ok <==> ascii_eq_fold(s@, "sexp"@),
            r matches Ok(f) ==> f == Format::Sexp,
            r matches Err(e) ==> e.0@ == s@,
    {
        if s.eq_ignore_ascii_case("sexp") {
            Ok(Format::Sexp)
        } else {
            Err(FormatFromStrError(s.to_owned()))
        }
    }
}

} // verus!
