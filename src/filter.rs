use vstd::prelude::*;

use crate::hook::{opt_str, strs, Hook};

verus! {

#[verifier::external_type_specification]
#[verifier::external_body]
pub struct ExRegex(fancy_regex::Regex);

#[verifier::external_type_specification]
#[verifier::external_body]
pub struct ExRegexError(fancy_regex::Error);

/// Whether `pattern` is a regular expression that fancy_regex accepts.
pub uninterp spec fn regex_compiles(pattern: Seq<char>) -> bool;

/// Whether the compiled `pattern` finds a match anywhere in `text`; a search
/// that gives up (backtrack limit) counts as no match.
pub uninterp spec fn regex_finds(pattern: Seq<char>, text: Seq<char>) -> bool;

/// A compiled pattern together with its source text.
pub struct Pattern {
    source: String,
    re: fancy_regex::Regex,
}

impl Pattern {
    pub closed spec fn source(&self) -> Seq<char> {
        self.source@
    }

    /// Relies on fancy_regex::Regex::new: compiles the pattern or reports why not.
    #[verifier::external_body]
    fn compile(pattern: &str) -> (r: Result<Pattern, Box<fancy_regex::Error>>)
        ensures
            r.is_ok() == regex_compiles(pattern@),
            r matches Ok(p) ==> p.source() == pattern@,
    {
        match fancy_regex::Regex::new(pattern) {
            Ok(re) => Ok(Pattern { source: pattern.to_string(), re }),
            Err(e) => Err(Box::new(e)),
        }
    }

    /// Relies on fancy_regex::Regex::is_match: an unanchored search of `text`,
    /// an error of the search read as no match.
    #[verifier::external_body]
    fn is_match(&self, text: &str) -> (r: bool)
        ensures
            r == regex_finds(self.source(), text@),
    {
        self.re.is_match(text).unwrap_or(false)
    }
}

/// Whether an optional pattern is absent or finds `path`.
pub open spec fn hit(p: Option<Seq<char>>, path: Seq<char>) -> Option<bool> {
    match p {
        Some(s) => Some(regex_finds(s, path)),
        None => None,
    }
}

/// The decision of the filename filter given what each pattern found
/// (`None` where the pattern is absent).
pub open spec fn decide(files_hit: Option<bool>, exclude_hit: Option<bool>) -> bool {
    (files_hit is None || files_hit == Some(true)) && (exclude_hit is None || exclude_hit
        == Some(false))
}

/// Whether `path` passes a selecting and an exclude pattern.
pub open spec fn path_selected(
    files: Option<Seq<char>>,
    exclude: Option<Seq<char>>,
    path: Seq<char>,
) -> bool {
    (files is None || regex_finds(files->0, path)) && (exclude is None || !regex_finds(
        exclude->0,
        path,
    ))
}

/// Combines what the selecting and exclude patterns found on a path: it passes
/// when the selecting pattern is absent or matched, and the exclude pattern is
/// absent or did not match.
pub fn filename_decision(files_hit: Option<bool>, exclude_hit: Option<bool>) -> (r: bool)
    ensures
        r == decide(files_hit, exclude_hit),
{
    let inc = match files_hit {
        Some(b) => b,
        None => true,
    };
    let exc = match exclude_hit {
        Some(b) => b,
        None => false,
    };
    inc && !exc
}

/// Filter filenames by files/exclude patterns.
pub struct FilenameFilter {
    files: Option<Pattern>,
    exclude: Option<Pattern>,
}

pub open spec fn pattern_source(p: Option<Pattern>) -> Option<Seq<char>> {
    match p {
        Some(x) => Some(x.source()),
        None => None,
    }
}

impl FilenameFilter {
    pub closed spec fn files_source(&self) -> Option<Seq<char>> {
        pattern_source(self.files)
    }

    pub closed spec fn exclude_source(&self) -> Option<Seq<char>> {
        pattern_source(self.exclude)
    }

    /// Whether `path` passes this filter.
    pub open spec fn selects(&self, path: Seq<char>) -> bool {
        path_selected(self.files_source(), self.exclude_source(), path)
    }

    /// Compiles both patterns; fails on the first malformed one.
    pub fn new(files: Option<&str>, exclude: Option<&str>) -> (r: Result<
        Self,
        Box<fancy_regex::Error>,
    >)
        ensures
            r.is_ok() == ((files is None || regex_compiles(files->0@)) && (exclude is None
                || regex_compiles(exclude->0@))),
            r matches Ok(f) ==> f.files_source() == (match files {
                Some(s) => Some(s@),
                None => None::<Seq<char>>,
            }) && f.exclude_source() == (match exclude {
                Some(s) => Some(s@),
                None => None::<Seq<char>>,
            }),
    {
        let inc = match files {
            Some(s) => match Pattern::compile(s) {
                Ok(p) => Some(p),
                Err(e) => return Err(e),
            },
            None => None,
        };
        let exc = match exclude {
            Some(s) => match Pattern::compile(s) {
                Ok(p) => Some(p),
                Err(e) => return Err(e),
            },
            None => None,
        };
        Ok(FilenameFilter { files: inc, exclude: exc })
    }

    /// Whether `filename` is matched by the selecting pattern (if any) and not
    /// by the exclude pattern (if any).
    pub fn filter(&self, filename: &str) -> (r: bool)
        ensures
            r == self.selects(filename@),
            r == decide(
                hit(self.files_source(), filename@),
                hit(self.exclude_source(), filename@),
            ),
    {
        let inc = match &self.files {
            Some(p) => Some(p.is_match(filename)),
            None => None,
        };
        let exc = match &self.exclude {
            Some(p) => Some(p.is_match(filename)),
            None => None,
        };
        filename_decision(inc, exc)
    }

    pub fn from_hook(hook: &Hook) -> (r: Result<Self, Box<fancy_regex::Error>>)
        ensures
            r.is_ok() == ((hook.files is None || regex_compiles(hook.files->0@)) && (
            hook.exclude is None || regex_compiles(hook.exclude->0@))),
            r matches Ok(f) ==> f.files_source() == opt_str(hook.files) && f.exclude_source()
                == opt_str(hook.exclude),
    {
        let inc = match &hook.files {
            Some(s) => Some(s.as_str()),
            None => None,
        };
        let exc = match &hook.exclude {
            Some(s) => Some(s.as_str()),
            None => None,
        };
        Self::new(inc, exc)
    }
}

/// Whether a tag list passes the three tag rules.
pub open spec fn tags_selected(
    all: Seq<Seq<char>>,
    any: Seq<Seq<char>>,
    exclude: Seq<Seq<char>>,
    tags: Seq<Seq<char>>,
) -> bool {
    &&& (forall|i: int| 0 <= i < all.len() ==> tags.contains(#[trigger] all[i]))
    &&& (any.len() == 0 || exists|i: int| 0 <= i < any.len() && tags.contains(#[trigger] any[i]))
    &&& (forall|i: int| 0 <= i < exclude.len() ==> !tags.contains(#[trigger] exclude[i]))
}

/// Filter files by tags.
pub struct FileTagFilter<'a> {
    pub all: &'a [String],
    pub any: &'a [String],
    pub exclude: &'a [String],
}

fn contains_tag(tags: &[&str], t: &String) -> (r: bool)
    ensures
        r == tags@.map_values(|x: &str| x@).contains(t@),
{
    let ghost v = tags@.map_values(|x: &str| x@);
    let mut i: usize = 0;
    while i < tags.len()
        invariant
            0 <= i <= tags.len(),
            v == tags@.map_values(|x: &str| x@),
            forall|j: int| 0 <= j < i ==> v[j] != t@,
        decreases tags.len() - i,
    {
        if str_eq(tags[i], t.as_str()) {
            assert(v[i as int] == t@);
            return true;
        }
        i = i + 1;
    }
    proof {
        if v.contains(t@) {
            let j = choose|j: int| 0 <= j < v.len() && v[j] == t@;
            assert(v[j] != t@);
        }
    }
    false
}

/// Character-wise equality of two strings.
pub(crate) fn str_eq(a: &str, b: &str) -> (r: bool)
    ensures
        r == (a@ == b@),
{
    let x = String::from_str(a);
    let y = String::from_str(b);
    x == y
}

/// Whether some tag of `list` is among `tags`.
fn any_present(tags: &[&str], list: &[String]) -> (r: bool)
    ensures
        r == exists|j: int|
            0 <= j < list.len() && tags@.map_values(|x: &str| x@).contains(
                #[trigger] strs(list@)[j],
            ),
{
    let ghost v = tags@.map_values(|x: &str| x@);
    let mut i: usize = 0;
    while i < list.len()
        invariant
            0 <= i <= list.len(),
            v == tags@.map_values(|x: &str| x@),
            forall|j: int| 0 <= j < i ==> !v.contains(#[trigger] strs(list@)[j]),
        decreases list.len() - i,
    {
        if contains_tag(tags, &list[i]) {
            assert(v.contains(strs(list@)[i as int]));
            return true;
        }
        i = i + 1;
    }
    false
}

impl<'a> FileTagFilter<'a> {
    pub fn new(types: &'a [String], types_or: &'a [String], exclude_types: &'a [String]) -> (r:
        Self)
        ensures
            r.all == types && r.any == types_or && r.exclude == exclude_types,
    {
        FileTagFilter { all: types, any: types_or, exclude: exclude_types }
    }

    /// Whether `file_types` passes the three rules.
    pub open spec fn selects(&self, tags: Seq<Seq<char>>) -> bool {
        tags_selected(strs(self.all@), strs(self.any@), strs(self.exclude@), tags)
    }

    pub fn filter(&self, file_types: &[&str]) -> (r: bool)
        ensures
            r == self.selects(file_types@.map_values(|x: &str| x@)),
    {
        let ghost tags = file_types@.map_values(|x: &str| x@);
        let mut i: usize = 0;
        while i < self.all.len()
            invariant
                0 <= i <= self.all.len(),
                tags == file_types@.map_values(|x: &str| x@),
                forall|j: int| 0 <= j < i ==> tags.contains(#[trigger] strs(self.all@)[j]),
            decreases self.all.len() - i,
        {
            if !contains_tag(file_types, &self.all[i]) {
                assert(!tags.contains(strs(self.all@)[i as int]));
                return false;
            }
            i = i + 1;
        }
        if self.any.len() > 0 && !any_present(file_types, self.any) {
            return false;
        }
        if any_present(file_types, self.exclude) {
            return false;
        }
        true
    }

    pub fn from_hook(hook: &'a Hook) -> (r: Self)
        ensures
            r.all@ == hook.types@ && r.any@ == hook.types_or@ && r.exclude@ == hook.exclude_types@,
    {
        Self::new(hook.types.as_slice(), hook.types_or.as_slice(), hook.exclude_types.as_slice())
    }
}

} // verus!
