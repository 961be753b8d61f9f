//! Filters that decide which source files get full artifact output in a sparse compile.
use vstd::prelude::*;
use crate::text::{seq_contains, str_contains, str_eq};

verus! {

/// What `std::path::Path::file_name` gives for a path written as text: its last
/// component, or nothing when the path has none (it ends in `..`, or is a root).
pub uninterp spec fn path_file_name(path: Seq<char>) -> Option<Seq<char>>;

/// Relies on `std::path::Path::file_name`: the final component of `path`.
/// The component is a slice of a `str`, so turning it back into text always succeeds.
#[verifier::external_body]
fn file_name_of<'a>(path: &'a str) -> (r: Option<&'a str>)
    ensures
        match r {
            Some(n) => path_file_name(path@) == Some(n@),
            None => path_file_name(path@) is None,
        },
{
    match std::path::Path::new(path).file_name() {
        Some(n) => n.to_str(),
        None => None,
    }
}

/// A filter that excludes matching contracts from the build.
#[derive(Debug, Clone, PartialEq, Eq)]
pub enum SkipBuildFilter {
    /// Exclude all `.t.sol` contracts
    Tests,
    /// Exclude all `.s.sol` contracts
    Scripts,
    /// Exclude a file when its name contains the given text
    Custom(String),
}

/// The pattern of the test filter, `.t.sol`.
pub open spec fn tests_pattern() -> Seq<char> {
    seq!['.', 't', '.', 's', 'o', 'l']
}

/// The pattern of the script filter, `.s.sol`.
pub open spec fn scripts_pattern() -> Seq<char> {
    seq!['.', 's', '.', 's', 'o', 'l']
}

/// A file name is kept unless it contains the pattern; a path without a file
/// name is always kept.
pub open spec fn keeps_file_name(name: Option<Seq<char>>, pattern: Seq<char>) -> bool {
    match name {
        Some(n) => !seq_contains(n, pattern),
        None => true,
    }
}

/// The filter that a flag word stands for.
pub open spec fn filter_of_word(w: Seq<char>) -> SkipBuildFilter {
    if w == seq!['t', 'e', 's', 't'] || w == seq!['t', 'e', 's', 't', 's'] {
        SkipBuildFilter::Tests
    } else if w == seq!['s', 'c', 'r', 'i', 'p', 't'] || w == seq![
        's',
        'c',
        'r',
        'i',
        'p',
        't',
        's',
    ] {
        SkipBuildFilter::Scripts
    } else {
        SkipBuildFilter::Custom(arbitrary())
    }
}

impl SkipBuildFilter {
    /// The text whose presence in a file name excludes the file.
    pub open spec fn pattern(&self) -> Seq<char> {
        match self {
            SkipBuildFilter::Tests => tests_pattern(),
            SkipBuildFilter::Scripts => scripts_pattern(),
            SkipBuildFilter::Custom(s) => s@,
        }
    }

    /// Whether the filter keeps a file whose name is `name`.
    pub open spec fn keeps_name(&self, name: Option<Seq<char>>) -> bool {
        keeps_file_name(name, self.pattern())
    }

    /// Whether the filter keeps the file at `path` in the sparse output.
    pub open spec fn keeps(&self, path: Seq<char>) -> bool {
        self.keeps_name(path_file_name(path))
    }

    /// Returns the pattern to match against a file.
    pub fn file_pattern(&self) -> (r: &str)
        ensures
            r@ == self.pattern(),
    {
        match self {
            SkipBuildFilter::Tests => {
                let r = ".t.sol";
                proof {
                    reveal_strlit(".t.sol");
                    assert(r@ =~= tests_pattern());
                }
                r
            },
            SkipBuildFilter::Scripts => {
                let r = ".s.sol";
                proof {
                    reveal_strlit(".s.sol");
                    assert(r@ =~= scripts_pattern());
                }
                r
            },
            SkipBuildFilter::Custom(s) => s.as_str(),
        }
    }

    /// Whether a file with the given name (or with none) is kept in the sparse output:
    /// it is kept exactly when its name does not contain the pattern.
    pub fn included_in_sparse_output(&self, file_name: Option<&str>) -> (r: bool)
        ensures
            r == self.keeps_name(
                match file_name {
                    Some(n) => Some(n@),
                    None => None,
                },
            ),
    {
        match file_name {
            Some(n) => !str_contains(n, self.file_pattern()),
            None => true,
        }
    }

    /// Matches the file only if the filter does not apply: the inverse of
    /// "the file name contains the pattern".
    pub fn is_match(&self, file: &str) -> (r: bool)
        ensures
            r == self.keeps(file@),
    {
        self.included_in_sparse_output(file_name_of(file))
    }

    /// Reads a flag word: `test`/`tests` and `script`/`scripts` name the built-in
    /// filters; any other text becomes a custom pattern. Never fails.
    pub fn parse(s: &str) -> (r: SkipBuildFilter)
        ensures
            r.pattern() == (match filter_of_word(s@) {
                SkipBuildFilter::Custom(_) => s@,
                f => f.pattern(),
            }),
            r is Custom <==> filter_of_word(s@) is Custom,
            r is Tests <==> filter_of_word(s@) is Tests,
            r is Scripts <==> filter_of_word(s@) is Scripts,
    {
        proof {
            reveal_strlit("test");
            reveal_strlit("tests");
            reveal_strlit("script");
            reveal_strlit("scripts");
        }
        if str_eq(s, "test") || str_eq(s, "tests") {
            assert("test"@ =~= seq!['t', 'e', 's', 't']);
            assert("tests"@ =~= seq!['t', 'e', 's', 't', 's']);
            SkipBuildFilter::Tests
        } else if str_eq(s, "script") || str_eq(s, "scripts") {
            assert("script"@ =~= seq!['s', 'c', 'r', 'i', 'p', 't']);
            assert("scripts"@ =~= seq!['s', 'c', 'r', 'i', 'p', 't', 's']);
            SkipBuildFilter::Scripts
        } else {
            assert("test"@ =~= seq!['t', 'e', 's', 't']);
            assert("tests"@ =~= seq!['t', 'e', 's', 't', 's']);
            assert("script"@ =~= seq!['s', 'c', 'r', 'i', 'p', 't']);
            assert("scripts"@ =~= seq!['s', 'c', 'r', 'i', 'p', 't', 's']);
            SkipBuildFilter::Custom(s.to_string())
        }
    }
}

impl From<&str> for SkipBuildFilter {
    /// Same as [`SkipBuildFilter::parse`], which carries the contract.
    fn from(s: &str) -> (r: SkipBuildFilter) {
        SkipBuildFilter::parse(s)
    }
}

impl vstd::std_specs::convert::FromSpecImpl<&str> for SkipBuildFilter {
    open spec fn obeys_from_spec() -> bool {
        false
    }

    open spec fn from_spec(v: &str) -> SkipBuildFilter {
        filter_of_word(v@)
    }
}

impl std::str::FromStr for SkipBuildFilter {
    type Err = std::convert::Infallible;

    /// Same as [`SkipBuildFilter::parse`]: never fails.
    fn from_str(s: &str) -> Result<SkipBuildFilter, std::convert::Infallible> {
        Ok(SkipBuildFilter::parse(s))
    }
}

/// Bundles several filters into one: a file is kept only if every filter keeps it.
#[derive(Debug, Clone, PartialEq, Eq)]
pub struct SkipBuildFilters(pub Vec<SkipBuildFilter>);

impl SkipBuildFilters {
    /// Whether every filter of the set keeps the file at `path`.
    pub open spec fn keeps(&self, path: Seq<char>) -> bool {
        forall|i: int| 0 <= i < self.0@.len() ==> #[trigger] self.0@[i].keeps(path)
    }

    /// Only returns a match if no exclusion filter applies to the file.
    pub fn is_match(&self, file: &str) -> (r: bool)
        ensures
            r == self.keeps(file@),
    {
        let mut i: usize = 0;
        while i < self.0.len()
            invariant
                i <= self.0@.len(),
                forall|k: int| 0 <= k < i ==> #[trigger] self.0@[k].keeps(file@),
            decreases self.0@.len() - i,
        {
            if !self.0[i].is_match(file) {
                return false;
            }
            i = i + 1;
        }
        true
    }
}

/// The test filter drops a file exactly when its file name contains `.t.sol`,
/// and the script filter exactly when it contains `.s.sol`.
pub proof fn lemma_builtin_filters_drop_by_name(path: Seq<char>)
    ensures
        !SkipBuildFilter::Tests.keeps(path) <==> (match path_file_name(path) {
            Some(n) => seq_contains(n, tests_pattern()),
            None => false,
        }),
        !SkipBuildFilter::Scripts.keeps(path) <==> (match path_file_name(path) {
            Some(n) => seq_contains(n, scripts_pattern()),
            None => false,
        }),
{
}

/// A set of two filters keeps a file exactly when both of its filters keep it.
pub proof fn lemma_filter_pair_is_conjunction(
    set: SkipBuildFilters,
    f1: SkipBuildFilter,
    f2: SkipBuildFilter,
    path: Seq<char>,
)
    requires
        set.0@ == seq![f1, f2],
    ensures
        set.keeps(path) == (f1.keeps(path) && f2.keeps(path)),
{
    if f1.keeps(path) && f2.keeps(path) {
        assert forall|i: int| 0 <= i < set.0@.len() implies #[trigger] set.0@[i].keeps(path) by {
            if i == 0 {
                assert(set.0@[0] == f1);
            } else {
                assert(set.0@[1] == f2);
            }
        }
    }
    if set.keeps(path) {
        assert(set.0@[0].keeps(path));
        assert(set.0@[1].keeps(path));
    }
}

} // verus!
