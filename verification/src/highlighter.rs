use vstd::prelude::*;
use vstd::string::*;

verus! {

#[verifier::external_type_specification]
#[verifier::external_body]
pub struct ExRegex(regex::Regex);

#[verifier::external_type_specification]
#[verifier::external_body]
pub struct ExRegexError(regex::Error);

/// Whether `regex::RegexBuilder` accepts `pattern` (with the given case
/// sensitivity) and builds a regex from it.
pub uninterp spec fn regex_builds(pattern: Seq<char>, case_insensitive: bool) -> bool;

/// Whether the regex built from `pattern` matches somewhere in `haystack`.
pub uninterp spec fn regex_is_match(pattern: Seq<char>, case_insensitive: bool, haystack: Seq<char>) -> bool;

/// `haystack` with every non-overlapping match of the regex built from
/// `pattern` replaced by `pre`, the matched text and `post`.
pub uninterp spec fn regex_surround_all(
    pattern: Seq<char>,
    case_insensitive: bool,
    haystack: Seq<char>,
    pre: Seq<char>,
    post: Seq<char>,
) -> Seq<char>;

/// What a compiled keyword regex was built from.
pub struct RegexSpec {
    pub pattern: Seq<char>,
    pub case_insensitive: bool,
}

/// Regex source that matches `keyword` as a whole word.
pub open spec fn keyword_pattern(keyword: Seq<char>) -> Seq<char> {
    seq!['\\', 'b'] + keyword + seq!['\\', 'b']
}

/// How a keyword of the configuration is searched for: as a whole word,
/// ignoring case.
pub open spec fn keyword_regex(keyword: Seq<char>) -> RegexSpec {
    RegexSpec { pattern: keyword_pattern(keyword), case_insensitive: true }
}

/// A compiled regex, kept with the source it was built from.
#[derive(Debug)]
pub struct Keyword {
    pattern: String,
    case_insensitive: bool,
    regex: regex::Regex,
}

impl View for Keyword {
    type V = RegexSpec;

    closed spec fn view(&self) -> RegexSpec {
        RegexSpec { pattern: self.pattern@, case_insensitive: self.case_insensitive }
    }
}

/// `regex::RegexBuilder::new(pattern).case_insensitive(..).build()`:
/// succeeds exactly when the regex crate accepts the pattern; the compiled
/// regex is kept with its source.
#[verifier::external_body]
fn compile_regex(pattern: String, case_insensitive: bool) -> (r: Result<Keyword, regex::Error>)
    ensures
        r is Ok <==> regex_builds(pattern@, case_insensitive),
        r matches Ok(k) ==> k@ == (RegexSpec { pattern: pattern@, case_insensitive }),
{
    regex::RegexBuilder::new(&pattern).case_insensitive(case_insensitive).build().map(
        |regex| Keyword { pattern, case_insensitive, regex },
    )
}

/// `regex::Regex::is_match`: whether the regex matches somewhere in `haystack`.
#[verifier::external_body]
fn regex_find(k: &Keyword, haystack: &str) -> (r: bool)
    ensures
        r == regex_is_match(k@.pattern, k@.case_insensitive, haystack@),
{
    k.regex.is_match(haystack)
}

/// `regex::Regex::replace_all` with a closure that surrounds each match by
/// `pre` and `post`; as its documentation states, a haystack without a
/// match comes back unchanged, and as its source shows (the text between
/// matches is copied, each match replaced by what the closure returns),
/// surrounding each match by nothing gives the haystack back too.
#[verifier::external_body]
fn regex_replace_all(k: &Keyword, haystack: &str, pre: &str, post: &str) -> (r: String)
    ensures
        r@ == regex_surround_all(k@.pattern, k@.case_insensitive, haystack@, pre@, post@),
        !regex_is_match(k@.pattern, k@.case_insensitive, haystack@) ==> r@ == haystack@,
        pre@.len() == 0 && post@.len() == 0 ==> r@ == haystack@,
{
    k.regex.replace_all(haystack, |caps: &regex::Captures<'_>| surround(&caps[0], pre, post)).into_owned()
}

/// `text` between `pre` and `post`.
pub fn surround(text: &str, pre: &str, post: &str) -> (r: String)
    ensures
        r@ == pre@ + text@ + post@,
{
    let mut out = String::from_str(pre);
    out.append(text);
    out.append(post);
    out
}

/// The regex source for `keyword`: the keyword between two word boundaries.
pub fn keyword_pattern_string(keyword: &str) -> (r: String)
    ensures
        r@ == keyword_pattern(keyword@),
        r@ == "\\b"@ + keyword@ + "\\b"@,
{
    let mut out = String::from_str("\\b");
    out.append(keyword);
    out.append("\\b");
    proof {
        reveal_strlit("\\b");
    }
    assert(out@ =~= keyword_pattern(keyword@));
    out
}

impl Keyword {
    /// Compiles `keyword` into a case-insensitive whole-word regex.
    pub fn from(keyword: &str) -> (r: Keyword)
        requires
            regex_builds(keyword_pattern(keyword@), true),
        ensures
            r@ == keyword_regex(keyword@),
    {
        let pattern = keyword_pattern_string(keyword);
        match compile_regex(pattern, true) {
            Ok(k) => k,
            Err(_) => vstd::pervasive::unreached(),
        }
    }

    /// Compiles `keyword` into a case-insensitive whole-word regex, or gives
    /// `None` when it does not make a valid regex.
    pub fn try_from(keyword: &str) -> (r: Option<Keyword>)
        ensures
            r is Some <==> regex_builds(keyword_pattern(keyword@), true),
            r matches Some(k) ==> k@ == keyword_regex(keyword@),
    {
        match compile_regex(keyword_pattern_string(keyword), true) {
            Ok(_) => Some(Keyword::from(keyword)),
            Err(_) => None,
        }
    }

    /// Whether the keyword occurs in `text`.
    pub fn is_match(&self, text: &str) -> (r: bool)
        ensures
            r == regex_is_match(self@.pattern, self@.case_insensitive, text@),
    {
        regex_find(self, text)
    }

    /// `text` with every occurrence of the keyword surrounded by `pre` and `post`.
    pub fn replace_all(&self, text: &str, pre: &str, post: &str) -> (r: String)
        ensures
            r@ == regex_surround_all(self@.pattern, self@.case_insensitive, text@, pre@, post@),
            !regex_is_match(self@.pattern, self@.case_insensitive, text@) ==> r@ == text@,
            pre@.len() == 0 && post@.len() == 0 ==> r@ == text@,
    {
        regex_replace_all(self, text, pre, post)
    }
}

/// Why a highlighter could not be built.
#[derive(Debug)]
pub enum HighlighterError {
    /// The keyword does not make a valid regex.
    InvalidRegex { keyword: String },
}

/// Whether one of `regexes` matches somewhere in `text`.
pub open spec fn any_match(regexes: Seq<RegexSpec>, text: Seq<char>) -> bool {
    exists|i: int| 0 <= i < regexes.len() && regex_is_match(#[trigger] regexes[i].pattern, regexes[i].case_insensitive, text)
}

/// `text` after surrounding the matches of each of `regexes` in turn,
/// first regex first.
pub open spec fn highlight_all(regexes: Seq<RegexSpec>, text: Seq<char>, pre: Seq<char>, post: Seq<char>) -> Seq<char>
    decreases regexes.len(),
{
    if regexes.len() == 0 {
        text
    } else {
        let r = regexes.last();
        regex_surround_all(
            r.pattern,
            r.case_insensitive,
            highlight_all(regexes.drop_last(), text, pre, post),
            pre,
            post,
        )
    }
}

/// A keyword is searched for as a whole word, ignoring case: its regex is
/// the keyword itself between a word boundary `\b` before it and another
/// after it.
pub proof fn law_keyword_regex_is_whole_word(keyword: Seq<char>)
    ensures
        keyword_regex(keyword).case_insensitive,
        keyword_regex(keyword).pattern.len() == keyword.len() + 4,
        keyword_regex(keyword).pattern.take(2) == seq!['\\', 'b'],
        keyword_regex(keyword).pattern.subrange(2, keyword.len() + 2 as int) == keyword,
        keyword_regex(keyword).pattern.subrange(keyword.len() + 2 as int, keyword.len() + 4 as int) == seq!['\\', 'b'],
{
    let p = keyword_regex(keyword).pattern;
    assert(p.take(2) =~= seq!['\\', 'b']);
    assert(p.subrange(2, keyword.len() + 2 as int) =~= keyword);
    assert(p.subrange(keyword.len() + 2 as int, keyword.len() + 4 as int) =~= seq!['\\', 'b']);
}

/// Highlighting with no regex leaves the text as it is.
pub proof fn law_highlight_nothing(text: Seq<char>, pre: Seq<char>, post: Seq<char>)
    ensures
        highlight_all(Seq::empty(), text, pre, post) == text,
{
}

/// Highlighting with one more regex surrounds that regex's matches in the
/// text the earlier regexes left, whatever they matched.
pub proof fn law_highlight_one_more(
    regexes: Seq<RegexSpec>,
    r: RegexSpec,
    text: Seq<char>,
    pre: Seq<char>,
    post: Seq<char>,
)
    ensures
        highlight_all(regexes.push(r), text, pre, post) == regex_surround_all(
            r.pattern,
            r.case_insensitive,
            highlight_all(regexes, text, pre, post),
            pre,
            post,
        ),
{
    assert(regexes.push(r).drop_last() =~= regexes);
}

/// Index of the first keyword that does not make a valid regex, if any.
pub open spec fn first_invalid(keywords: Seq<Seq<char>>) -> Option<int> {
    if exists|i: int| 0 <= i < keywords.len() && !regex_builds(keyword_pattern(#[trigger] keywords[i]), true) {
        Some(
            choose|i: int|
                0 <= i < keywords.len() && !regex_builds(keyword_pattern(keywords[i]), true) && forall|j: int|
                    0 <= j < i ==> regex_builds(keyword_pattern(#[trigger] keywords[j]), true),
        )
    } else {
        None
    }
}

/// The views of some strings.
pub open spec fn string_views(v: Seq<String>) -> Seq<Seq<char>> {
    v.map_values(|s: String| s@)
}

/// Finds and marks the configured keywords in job texts.
#[derive(Debug)]
pub struct Highlighter {
    keywords: Vec<Keyword>,
}

impl View for Highlighter {
    type V = Seq<RegexSpec>;

    closed spec fn view(&self) -> Seq<RegexSpec> {
        self.keywords@.map_values(|k: Keyword| k@)
    }
}

impl Highlighter {
    /// One whole-word, case-insensitive regex per keyword, in order; fails on
    /// the first keyword that does not make a valid regex.
    pub fn new(keywords: &Vec<String>) -> (r: Result<Highlighter, HighlighterError>)
        ensures
            match r {
                Ok(h) => first_invalid(string_views(keywords@)) is None
                    && h@ == string_views(keywords@).map_values(|k: Seq<char>| keyword_regex(k)),
                Err(HighlighterError::InvalidRegex { keyword }) => first_invalid(string_views(keywords@)) matches Some(i)
                    && keyword@ == keywords@[i]@,
            },
    {
        let ghost kws = string_views(keywords@);
        let mut compiled: Vec<Keyword> = Vec::new();
        let mut i: usize = 0;
        while i < keywords.len()
            invariant
                i <= keywords.len(),
                kws == string_views(keywords@),
                compiled@.len() == i,
                forall|j: int| 0 <= j < i ==> regex_builds(keyword_pattern(#[trigger] kws[j]), true),
                forall|j: int| 0 <= j < i ==> #[trigger] compiled@[j]@ == keyword_regex(kws[j]),
            decreases keywords.len() - i,
        {
            let keyword = keywords[i].as_str();
            let probe = compile_regex(keyword_pattern_string(keyword), true);
            match probe {
                Err(_) => {
                    proof {
                        assert(!regex_builds(keyword_pattern(kws[i as int]), true));
                        let w = choose|w: int|
                            0 <= w < kws.len() && !regex_builds(keyword_pattern(kws[w]), true) && forall|j: int|
                                0 <= j < w ==> regex_builds(keyword_pattern(#[trigger] kws[j]), true);
                        assert(w == i) by {
                            if w < i {
                                assert(regex_builds(keyword_pattern(kws[w]), true));
                            }
                            if w > i {
                                assert(regex_builds(keyword_pattern(kws[i as int]), true));
                            }
                        }
                    }
                    return Err(HighlighterError::InvalidRegex { keyword: keywords[i].clone() });
                },
                Ok(k) => {
                    compiled.push(k);
                },
            }
            i = i + 1;
        }
        let h = Highlighter { keywords: compiled };
        proof {
            assert(!(exists|i: int| 0 <= i < kws.len() && !regex_builds(keyword_pattern(#[trigger] kws[i]), true)));
            assert(h@ =~= kws.map_values(|k: Seq<char>| keyword_regex(k)));
        }
        Ok(h)
    }

    /// Whether one of the keywords occurs in `text`.
    pub fn can_highlight(&self, text: &str) -> (r: bool)
        ensures
            r == any_match(self@, text@),
    {
        let mut i: usize = 0;
        while i < self.keywords.len()
            invariant
                i <= self.keywords@.len(),
                forall|j: int| 0 <= j < i ==> !regex_is_match(#[trigger] self@[j].pattern, self@[j].case_insensitive, text@),
            decreases self.keywords@.len() - i,
        {
            if self.keywords[i].is_match(text) {
                assert(regex_is_match(self@[i as int].pattern, self@[i as int].case_insensitive, text@));
                return true;
            }
            i = i + 1;
        }
        false
    }

    /// Surrounds every occurrence of every keyword in `text` by `pre` and
    /// `post`, one keyword after the other; a text in which no keyword
    /// occurs, or empty markup, leaves the text as it is.
    pub fn highlight(&self, text: &mut String, pre: &str, post: &str)
        ensures
            final(text)@ == highlight_all(self@, old(text)@, pre@, post@),
            !any_match(self@, old(text)@) ==> final(text)@ == old(text)@,
            pre@.len() == 0 && post@.len() == 0 ==> final(text)@ == old(text)@,
    {
        let ghost original = text@;
        let mut i: usize = 0;
        while i < self.keywords.len()
            invariant
                i <= self.keywords@.len(),
                text@ == highlight_all(self@.take(i as int), original, pre@, post@),
                !any_match(self@, original) ==> text@ == original,
                pre@.len() == 0 && post@.len() == 0 ==> text@ == original,
            decreases self.keywords@.len() - i,
        {
            let next = self.keywords[i].replace_all(text.as_str(), pre, post);
            proof {
                assert(self@.take(i + 1).drop_last() =~= self@.take(i as int));
                assert(self@.take(i + 1).last() == self@[i as int]);
                if !any_match(self@, original) {
                    assert(!regex_is_match(self@[i as int].pattern, self@[i as int].case_insensitive, original));
                }
            }
            *text = next;
            i = i + 1;
        }
        proof {
            assert(self@.take(i as int) =~= self@);
        }
    }
}

} // verus!
