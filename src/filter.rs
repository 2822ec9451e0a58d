use vstd::prelude::*;
use vstd::string::StringExecFns;

verus! {

/// Whether the regular expression `pattern` matches somewhere in `text`.
pub uninterp spec fn pattern_matches(pattern: Seq<char>, text: Seq<u8>) -> bool;

/// Whether `pattern` is an expression that the regex crate compiles.
pub uninterp spec fn regex_compiles(pattern: Seq<char>) -> bool;

/// regex's compiled expression over bytes, carried as an opaque value.
#[verifier::external_type_specification]
#[verifier::external_body]
pub struct ExBytesRegex(regex::bytes::Regex);

/// The patterns joined into one alternation.
pub open spec fn joined_patterns(ps: Seq<Seq<char>>) -> Seq<char>
    decreases ps.len(),
{
    if ps.len() == 0 {
        Seq::empty()
    } else if ps.len() == 1 {
        ps[0]
    } else {
        joined_patterns(ps.drop_last()) + seq!['|'] + ps.last()
    }
}

/// The patterns with `|` between each two.
fn join_with_bar(ps: &Vec<String>) -> (r: String)
    ensures
        r@ == joined_patterns(ps@.map_values(|p: String| p@)),
{
    let ghost views = ps@.map_values(|p: String| p@);
    let mut out = String::new();
    let mut i: usize = 0;
    proof {
        assert(views.subrange(0, 0) =~= Seq::<Seq<char>>::empty());
    }
    while i < ps.len()
        invariant
            i <= ps@.len(),
            views == ps@.map_values(|p: String| p@),
            out@ == joined_patterns(views.subrange(0, i as int)),
        decreases ps@.len() - i,
    {
        let bar = "|";
        proof {
            reveal_strlit("|");
        }
        if i > 0 {
            out.append(bar);
        }
        out.append(ps[i].as_str());
        proof {
            let pre = views.subrange(0, i as int);
            let next = views.subrange(0, i as int + 1);
            assert(next.drop_last() =~= pre);
            assert(next.last() == ps@[i as int]@);
            if i == 0 {
                assert(out@ =~= joined_patterns(next));
            } else {
                assert(bar@ =~= seq!['|']);
                assert(out@ =~= joined_patterns(next));
            }
        }
        i = i + 1;
    }
    proof {
        assert(views.subrange(0, ps@.len() as int) =~= views);
    }
    out
}

/// Relies on `regex::bytes::Regex::new`: compiles `pattern`, or fails when it
/// is not a valid expression.
#[verifier::external_body]
fn compile(pattern: &str) -> (r: Option<regex::bytes::Regex>)
    ensures
        r is Some <==> regex_compiles(pattern@),
{
    regex::bytes::Regex::new(pattern).ok()
}

/// A compiled filter on symbol names, kept with the pattern it was built from.
pub struct OmitFilter {
    pattern: String,
    regex: regex::bytes::Regex,
}

impl OmitFilter {
    pub closed spec fn pattern(&self) -> Seq<char> {
        self.pattern@
    }

    /// Builds one filter from several patterns: a name is matched when any
    /// of them matches it. `None` when the joined expression does not compile.
    pub fn new(patterns: &Vec<String>) -> (r: Option<OmitFilter>)
        ensures
            r matches Some(f) ==> f.pattern() == joined_patterns(patterns@.map_values(|p: String| p@)),
            r is Some <==> regex_compiles(joined_patterns(patterns@.map_values(|p: String| p@))),
    {
        let pattern = join_with_bar(patterns);
        match compile(pattern.as_str()) {
            Some(regex) => Some(OmitFilter { pattern, regex }),
            None => None,
        }
    }

    /// Whether the filter matches the raw symbol name `name`.
    pub fn is_match(&self, name: &[u8]) -> (r: bool)
        ensures
            r == pattern_matches(self.pattern(), name@),
    {
        regex_is_match(self, name)
    }
}

/// Relies on `regex::bytes::Regex::is_match`: whether the expression, which
/// `OmitFilter::new` compiled from the filter's pattern, matches in `name`.
#[verifier::external_body]
fn regex_is_match(f: &OmitFilter, name: &[u8]) -> (r: bool)
    ensures
        r == pattern_matches(f.pattern(), name@),
{
    f.regex.is_match(name)
}

/// The name is dropped by the filter, if there is one.
pub open spec fn omitted(omit: Option<OmitFilter>, name: Seq<u8>) -> bool {
    match omit {
        Some(f) => pattern_matches(f.pattern(), name),
        None => false,
    }
}

} // verus!
