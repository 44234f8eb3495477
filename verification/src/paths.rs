//! Path rules: the anchored glob, the matcher built from it, hidden
//! entries, and the selection of files.

use vstd::prelude::*;
use vstd::string::*;
use crate::text::{strip_trailing_slash, strip_leading_slash, remove_trailing_slash,
    remove_leading_slash};

verus! {

#[verifier::external_type_specification]
#[verifier::external_body]
pub struct ExGlobMatcher(globset::GlobMatcher);

#[verifier::external_type_specification]
#[verifier::external_body]
pub struct ExGlobError(globset::Error);

#[verifier::external_type_specification]
#[verifier::external_body]
pub struct ExWalker(walkdir::IntoIter);

#[verifier::external_type_specification]
#[verifier::external_body]
pub struct ExDirEntry(walkdir::DirEntry);

/// The walker's error. No function here takes or returns one; the walker's
/// items are of this type, and Verus takes the walker only with it declared.
#[verifier::external_type_specification]
#[verifier::external_body]
pub struct ExWalkError(walkdir::Error);

/// Whether globset's parser accepts the glob, with literal separators on
/// and every other option at its default. One of those defaults follows
/// the platform: a backslash escapes the next character where `/` is the
/// path separator, and is itself a separator elsewhere. So this is a
/// function of the text on one platform, not across platforms.
pub uninterp spec fn glob_is_valid(glob: Seq<char>) -> bool;

/// Whether a matcher compiled from the glob, with literal separators on
/// and every other option at its default, matches the path. As with
/// `glob_is_valid`, this is a function of the two texts on one platform.
pub uninterp spec fn glob_matches(glob: Seq<char>, path: Seq<char>) -> bool;

/// The glob text that a matcher was compiled from.
pub uninterp spec fn matcher_glob(m: globset::GlobMatcher) -> Seq<char>;

/// Whether a matcher was built with literal separators on and every other
/// option at its default. A matcher keeps its options beside its text, and
/// both decide what it matches.
pub uninterp spec fn matcher_is_literal(m: globset::GlobMatcher) -> bool;

/// The root path that a walker was made with.
pub uninterp spec fn walker_root(w: walkdir::IntoIter) -> Seq<char>;

/// Whether a walker was set to yield the entries of each directory in the
/// order of their file names.
pub uninterp spec fn walker_sorts_by_name(w: walkdir::IntoIter) -> bool;

/// The file name of a directory entry, where it is valid Unicode.
pub uninterp spec fn entry_name(e: walkdir::DirEntry) -> Option<Seq<char>>;

/// Why no run can start.
#[derive(Debug, Clone, Copy, PartialEq, Eq, Structural)]
pub enum ConfigurationError {
    /// The anchored glob is not well-formed.
    MalformedGlob,
    /// The anchored glob is longer, or its braces nest deeper, than a
    /// matcher is built for.
    OversizedGlob,
}

impl ConfigurationError {
    /// The wording of the failure.
    pub open spec fn reason(self) -> Seq<char> {
        match self {
            ConfigurationError::MalformedGlob => "malformed glob: "@,
            ConfigurationError::OversizedGlob => "oversized glob: "@,
        }
    }

    /// The diagnostic for a base and a pattern: the wording of the failure,
    /// then the anchored glob.
    pub fn message(&self, unsafe_base: &str, unsafe_pattern: &str) -> (r: String)
        ensures
            r@ == self.reason() + anchored_glob(unsafe_base@, unsafe_pattern@),
    {
        let mut out = match self {
            ConfigurationError::MalformedGlob => String::from_str("malformed glob: "),
            ConfigurationError::OversizedGlob => String::from_str("oversized glob: "),
        };
        let glob = anchor_glob(unsafe_base, unsafe_pattern);
        out.append(glob.as_str());
        out
    }
}

/// The most characters of a glob that a matcher is built for.
pub const MAX_GLOB_LENGTH: usize = 16384;

/// The deepest nesting of braces that a matcher is built for.
pub const MAX_GLOB_DEPTH: usize = 64;

/// The number of `{` in a text.
pub open spec fn count_braces(s: Seq<char>) -> nat
    decreases s.len(),
{
    if s.len() == 0 {
        0
    } else if s.last() == '{' {
        count_braces(s.drop_last()) + 1
    } else {
        count_braces(s.drop_last())
    }
}

/// The number of `{` less the number of `}` in a text.
pub open spec fn brace_balance(s: Seq<char>) -> int
    decreases s.len(),
{
    if s.len() == 0 {
        0
    } else if s.last() == '{' {
        brace_balance(s.drop_last()) + 1
    } else if s.last() == '}' {
        brace_balance(s.drop_last()) - 1
    } else {
        brace_balance(s.drop_last())
    }
}

/// The greatest balance of braces that a prefix of the text reaches.
pub open spec fn brace_peak(s: Seq<char>) -> int
    decreases s.len(),
{
    if s.len() == 0 {
        0
    } else if brace_balance(s) > brace_peak(s.drop_last()) {
        brace_balance(s)
    } else {
        brace_peak(s.drop_last())
    }
}

/// A text without `[` and without a backslash: in such a glob every brace
/// is a brace of an alternation, none is escaped and none stands in a
/// character class.
pub open spec fn has_plain_braces(s: Seq<char>) -> bool {
    forall|i: int| 0 <= i < s.len() ==> #[trigger] s[i] != '[' && s[i] != '\\'
}

/// A bound on how deep the alternations of a glob nest. In a text with
/// plain braces it is the greatest number of braces open at once; in any
/// other text every `{` is counted, as if each were nested in the one
/// before.
pub open spec fn nesting_bound(s: Seq<char>) -> int {
    if has_plain_braces(s) {
        brace_peak(s)
    } else {
        count_braces(s) as int
    }
}

/// A glob is within bounds where neither its length nor the nesting of its
/// braces is over the maximum.
pub open spec fn glob_within_bounds(glob: Seq<char>) -> bool {
    glob.len() <= MAX_GLOB_LENGTH && nesting_bound(glob) <= MAX_GLOB_DEPTH
}

/// Whether a glob is within the bounds that a matcher is built for.
pub fn within_bounds(glob: &str) -> (r: bool)
    ensures
        r == glob_within_bounds(glob@),
{
    let n: usize = glob.unicode_len();
    if n > MAX_GLOB_LENGTH {
        return false;
    }
    let mut braces: usize = 0;
    let mut balance: i64 = 0;
    let mut peak: i64 = 0;
    let mut plain = true;
    let mut i: usize = 0;
    proof {
        assert(glob@.subrange(0, 0) =~= Seq::<char>::empty());
    }
    while i < n
        invariant
            i <= n == glob@.len(),
            n <= MAX_GLOB_LENGTH,
            braces <= i,
            -(i as int) <= balance <= i,
            0 <= peak <= i,
            braces == count_braces(glob@.subrange(0, i as int)),
            balance == brace_balance(glob@.subrange(0, i as int)),
            peak == brace_peak(glob@.subrange(0, i as int)),
            plain == has_plain_braces(glob@.subrange(0, i as int)),
        decreases n - i,
    {
        let c = glob.get_char(i);
        proof {
            let prev = glob@.subrange(0, i as int);
            let next = glob@.subrange(0, i as int + 1);
            assert(next.drop_last() =~= prev);
            assert(next.last() == c);
            assert(next[i as int] == c);
            assert forall|j: int| 0 <= j < prev.len() implies prev[j] == next[j] by {}
            if has_plain_braces(next) {
                assert forall|j: int| 0 <= j < prev.len() implies #[trigger] prev[j] != '['
                    && prev[j] != '\\' by {
                    assert(prev[j] == next[j]);
                }
            }
            if has_plain_braces(prev) && c != '[' && c != '\\' {
                assert forall|j: int| 0 <= j < next.len() implies #[trigger] next[j] != '['
                    && next[j] != '\\' by {
                    if j < prev.len() {
                        assert(prev[j] == next[j]);
                    }
                }
            }
        }
        if c == '{' {
            braces += 1;
            balance += 1;
        } else if c == '}' {
            balance -= 1;
        } else if c == '[' || c == '\\' {
            plain = false;
        }
        if balance > peak {
            peak = balance;
        }
        i += 1;
    }
    proof {
        assert(glob@.subrange(0, n as int) =~= glob@);
    }
    if plain {
        peak <= MAX_GLOB_DEPTH as i64
    } else {
        braces <= MAX_GLOB_DEPTH
    }
}

/// A file selected for probing.
#[derive(Debug, Clone)]
pub struct FileInfo {
    pub absolute_path: String,
    pub filename: String,
}

/// Calls `globset::GlobBuilder::new`, `literal_separator(true)`, `build`
/// and `Glob::compile_matcher`. Trusted: the build succeeds exactly on the
/// globs that globset's parser accepts; the matcher keeps the glob text it
/// was given (`GlobMatcher::glob` hands it back) and the options it was
/// built with.
///
/// `compile_matcher` turns the glob into a regular expression and stops the
/// program where that expression cannot be compiled: where it nests deeper
/// than 250 levels, or where its automaton takes more than 10 MiB. Every
/// level of braces adds one group with an alternation and a concatenation
/// in it, three levels, and what stands inside the innermost adds at most
/// five: 64 levels of braces stay under 200. The automaton counts 32 bytes
/// for a state, 8 for a transition of a class and 4 for a branch; a
/// character of the glob makes at most four states, one for each of its
/// bytes, or a class and a loop, so it stays under 200 bytes, and 16384
/// characters under 4 MiB.
#[verifier::external_body]
fn create_glob(pattern: &str) -> (r: Result<globset::GlobMatcher, globset::Error>)
    requires
        glob_within_bounds(pattern@),
    ensures
        r is Ok == glob_is_valid(pattern@),
        r matches Ok(m) ==> matcher_glob(m) == pattern@ && matcher_is_literal(m),
{
    match globset::GlobBuilder::new(pattern).literal_separator(true).build() {
        Ok(glob) => Ok(glob.compile_matcher()),
        Err(e) => Err(e),
    }
}

/// Calls `globset::GlobMatcher::is_match`. Trusted: for a matcher built
/// with literal separators on and every other option at its default, the
/// answer depends on the matcher's glob and the path alone.
#[verifier::external_body]
fn glob_is_match(matcher: &globset::GlobMatcher, path: &str) -> (r: bool)
    requires
        matcher_is_literal(*matcher),
    ensures
        r == glob_matches(matcher_glob(*matcher), path@),
{
    matcher.is_match(path)
}

/// Calls `walkdir::WalkDir::new`, `sort_by_file_name` and `into_iter`.
/// Trusted: the walker starts at the path it was given and is set to sort
/// the entries of each directory by file name. Nothing is read from disk
/// until the walker is advanced.
#[verifier::external_body]
fn sorted_walker(root: &str) -> (w: walkdir::IntoIter)
    ensures
        walker_root(w) == root@,
        walker_sorts_by_name(w),
{
    walkdir::WalkDir::new(root).sort_by_file_name().into_iter()
}

/// Calls `walkdir::DirEntry::file_name` and converts the name to a string
/// where it is valid Unicode.
#[verifier::external_body]
fn entry_file_name(entry: &walkdir::DirEntry) -> (r: Option<String>)
    ensures
        r is Some == entry_name(*entry) is Some,
        r matches Some(s) ==> entry_name(*entry) == Some(s@),
{
    match entry.file_name().to_str() {
        Some(s) => Some(s.to_owned()),
        None => None,
    }
}

/// The base without one trailing slash, a `/`, and the pattern without one
/// leading slash.
pub open spec fn anchored_glob(base: Seq<char>, pattern: Seq<char>) -> Seq<char> {
    strip_trailing_slash(base) + seq!['/'] + strip_leading_slash(pattern)
}

/// Every anchored glob starts with the normalised base and a separator,
/// and goes on with the pattern relative to it.
pub proof fn lemma_anchored_glob_shape(base: Seq<char>, pattern: Seq<char>)
    ensures
        strip_trailing_slash(base).is_prefix_of(anchored_glob(base, pattern)),
        anchored_glob(base, pattern)[strip_trailing_slash(base).len() as int] == '/',
        anchored_glob(base, pattern).skip(strip_trailing_slash(base).len() as int + 1)
            == strip_leading_slash(pattern),
        anchored_glob(base, pattern).len() == strip_trailing_slash(base).len() + 1
            + strip_leading_slash(pattern).len(),
{
    let b = strip_trailing_slash(base);
    let g = anchored_glob(base, pattern);
    assert(g.subrange(0, b.len() as int) =~= b);
    assert(g.skip(b.len() as int + 1) =~= strip_leading_slash(pattern));
}

/// Joins base and pattern into one glob anchored at the base.
pub fn anchor_glob(unsafe_base: &str, unsafe_pattern: &str) -> (r: String)
    ensures
        r@ == anchored_glob(unsafe_base@, unsafe_pattern@),
{
    let base = remove_trailing_slash(unsafe_base);
    let pattern = remove_leading_slash(unsafe_pattern);
    let mut glob = String::from_str(base);
    proof {
        reveal_strlit("/");
        assert("/"@ =~= seq!['/']);
    }
    glob.append("/");
    glob.append(pattern);
    glob
}

/// Whether a path lies lexically under a base: it starts with the base and
/// a separator.
pub open spec fn under_base(base: Seq<char>, path: Seq<char>) -> bool {
    (base + seq!['/']).is_prefix_of(path)
}

/// What follows the base and its separator in a path under it.
pub open spec fn below_base(base: Seq<char>, path: Seq<char>) -> Seq<char> {
    path.skip(base.len() as int + 1)
}

/// The matcher for one base directory and one pattern relative to it.
pub struct Matcher {
    base: String,
    inner: globset::GlobMatcher,
}

impl Matcher {
    /// The matcher inside was built with literal separators.
    #[verifier::type_invariant]
    closed spec fn built_literal(&self) -> bool {
        matcher_is_literal(self.inner)
    }

    /// The normalised base directory.
    pub closed spec fn base(&self) -> Seq<char> {
        self.base@
    }

    /// The anchored glob that paths are held against.
    pub closed spec fn glob(&self) -> Seq<char> {
        matcher_glob(self.inner)
    }

    /// A path is accepted where it lies under the base and the anchored
    /// glob matches it.
    pub open spec fn accepts(&self, path: Seq<char>) -> bool {
        under_base(self.base(), path) && glob_matches(self.glob(), path)
    }

    /// The normalised base directory.
    pub fn base_dir(&self) -> (r: &str)
        ensures
            r@ == self.base(),
    {
        self.base.as_str()
    }

    /// Whether the path is selected by this matcher.
    pub fn matches(&self, path: &str) -> (r: bool)
        ensures
            r == self.accepts(path@),
    {
        proof {
            use_type_invariant(self);
        }
        starts_with_base(self.base.as_str(), path) && glob_is_match(&self.inner, path)
    }
}

/// Whether the path starts with the base and a separator.
pub fn starts_with_base(base: &str, path: &str) -> (r: bool)
    ensures
        r == under_base(base@, path@),
{
    let n: usize = base.unicode_len();
    let m: usize = path.unicode_len();
    if m <= n {
        return false;
    }
    let ghost want = base@ + seq!['/'];
    let mut i: usize = 0;
    while i < n
        invariant
            i <= n == base@.len(),
            n < m == path@.len(),
            want == base@ + seq!['/'],
            want.subrange(0, i as int) =~= path@.subrange(0, i as int),
        decreases n - i,
    {
        if base.get_char(i) != path.get_char(i) {
            assert(want[i as int] != path@.subrange(0, want.len() as int)[i as int]);
            return false;
        }
        assert(want.subrange(0, i as int + 1) =~= want.subrange(0, i as int).push(want[i as int]));
        assert(path@.subrange(0, i as int + 1) =~= path@.subrange(0, i as int).push(
            path@[i as int],
        ));
        i += 1;
    }
    if path.get_char(n) != '/' {
        assert(want[n as int] != path@.subrange(0, want.len() as int)[n as int]);
        return false;
    }
    assert(want =~= want.subrange(0, n as int).push('/'));
    assert(path@.subrange(0, n as int + 1) =~= path@.subrange(0, n as int).push(path@[n as int]));
    true
}

/// The outcome of building a matcher for an anchored glob: none for a glob
/// out of bounds, none for a malformed one.
pub open spec fn matcher_outcome(glob: Seq<char>) -> Result<(), ConfigurationError> {
    if !glob_within_bounds(glob) {
        Err(ConfigurationError::OversizedGlob)
    } else if !glob_is_valid(glob) {
        Err(ConfigurationError::MalformedGlob)
    } else {
        Ok(())
    }
}

/// Builds the matcher for a base directory and a pattern relative to it.
/// It succeeds exactly where the anchored glob is within bounds and
/// well-formed, and says which of the two failed.
pub fn get_matcher(unsafe_base: &str, unsafe_pattern: &str) -> (r: Result<
    Matcher,
    ConfigurationError,
>)
    ensures
        r is Ok == (glob_within_bounds(anchored_glob(unsafe_base@, unsafe_pattern@))
            && glob_is_valid(anchored_glob(unsafe_base@, unsafe_pattern@))),
        r matches Ok(m) ==> m.base() == strip_trailing_slash(unsafe_base@) && m.glob()
            == anchored_glob(unsafe_base@, unsafe_pattern@),
        r matches Err(e) ==> Err::<(), ConfigurationError>(e) == matcher_outcome(
            anchored_glob(unsafe_base@, unsafe_pattern@),
        ),
{
    let glob = anchor_glob(unsafe_base, unsafe_pattern);
    if !within_bounds(glob.as_str()) {
        return Err(ConfigurationError::OversizedGlob);
    }
    match create_glob(glob.as_str()) {
        Ok(inner) => Ok(Matcher { base: String::from_str(remove_trailing_slash(unsafe_base)), inner }),
        Err(_) => Err(ConfigurationError::MalformedGlob),
    }
}

/// Makes the walker over the base directory, entries sorted by name.
pub fn get_walker(unsafe_base: &str) -> (w: walkdir::IntoIter)
    ensures
        walker_root(w) == strip_trailing_slash(unsafe_base@),
        walker_sorts_by_name(w),
{
    let base = remove_trailing_slash(unsafe_base);
    sorted_walker(base)
}

/// A name is hidden where it starts with a dot.
pub open spec fn hidden_name(name: Seq<char>) -> bool {
    name.len() > 0 && name[0] == '.'
}

/// Whether a file name is hidden.
pub fn is_hidden_name(name: &str) -> (r: bool)
    ensures
        r == hidden_name(name@),
{
    name.unicode_len() > 0 && name.get_char(0) == '.'
}

/// Whether a directory entry is hidden: its name is valid Unicode and
/// starts with a dot.
pub fn is_hidden(entry: &walkdir::DirEntry) -> (r: bool)
    ensures
        r == (entry_name(*entry) matches Some(n) && hidden_name(n)),
{
    match entry_file_name(entry) {
        Some(name) => is_hidden_name(name.as_str()),
        None => false,
    }
}

/// What follows the last `/` of a path; the whole path where it has none.
pub open spec fn last_segment(path: Seq<char>) -> Seq<char>
    decreases path.len(),
{
    if path.len() == 0 {
        Seq::empty()
    } else if path.last() == '/' {
        Seq::empty()
    } else {
        last_segment(path.drop_last()).push(path.last())
    }
}

/// The final segment of a path.
pub fn file_name_of(path: &str) -> (r: &str)
    ensures
        r@ == last_segment(path@),
{
    let n: usize = path.unicode_len();
    let mut start: usize = n;
    proof {
        assert(path@.subrange(0, n as int) =~= path@);
        assert(last_segment(path@) + path@.subrange(n as int, n as int) =~= last_segment(
            path@,
        ));
    }
    while start > 0 && path.get_char(start - 1) != '/'
        invariant
            start <= n == path@.len(),
            last_segment(path@) == last_segment(path@.subrange(0, start as int)) + path@.subrange(
                start as int,
                n as int,
            ),
        decreases start,
    {
        proof {
            let head = path@.subrange(0, start as int);
            assert(head.drop_last() =~= path@.subrange(0, start as int - 1));
            assert(last_segment(head.drop_last()).push(head.last()) + path@.subrange(
                start as int,
                n as int,
            ) =~= last_segment(head.drop_last()) + path@.subrange(start as int - 1, n as int));
        }
        start -= 1;
    }
    proof {
        assert(Seq::<char>::empty() + path@.subrange(start as int, n as int) =~= path@.subrange(
            start as int,
            n as int,
        ));
    }
    path.substring_char(start, n)
}

/// No segment of a relative path starts with a dot: every dot follows a
/// character that is no separator.
pub open spec fn no_hidden_segment(rest: Seq<char>) -> bool {
    forall|i: int| 0 <= i < rest.len() && #[trigger] rest[i] == '.' ==> i > 0 && rest[i - 1] != '/'
}

/// Whether a segment of the path, from a position on, starts with a dot.
pub fn has_hidden_segment(path: &str, from: usize) -> (r: bool)
    requires
        from <= path@.len(),
    ensures
        r == !no_hidden_segment(path@.skip(from as int)),
{
    let n: usize = path.unicode_len();
    let ghost rest = path@.skip(from as int);
    let mut i: usize = from;
    while i < n
        invariant
            from <= i <= n == path@.len(),
            rest == path@.skip(from as int),
            forall|j: int| 0 <= j < i - from && #[trigger] rest[j] == '.' ==> j > 0 && rest[j - 1] != '/',
        decreases n - i,
    {
        if path.get_char(i) == '.' && (i == from || path.get_char(i - 1) == '/') {
            assert(rest[i - from] == '.');
            return true;
        }
        i += 1;
    }
    false
}

/// The file that an entry stands for, where it is selected: a regular file
/// under the base, reached through no hidden entry below the base, that the
/// glob matched. The base's own name is not looked at: whether the root of
/// a walk is hidden is decided on its directory entry, by `is_hidden`,
/// before anything under it is met.
pub open spec fn selection(base: Seq<char>, path: Seq<char>, is_file: bool, matched: bool) -> Option<
    (Seq<char>, Seq<char>),
> {
    if is_file && matched && under_base(base, path) && no_hidden_segment(below_base(base, path)) {
        Some((path, last_segment(path)))
    } else {
        None
    }
}

/// The path and name of a selected file.
pub open spec fn selected(r: Option<FileInfo>) -> Option<(Seq<char>, Seq<char>)> {
    match r {
        Some(f) => Some((f.absolute_path@, f.filename@)),
        None => None,
    }
}

/// Decides on one entry, given whether the glob matched it. The file is
/// reported under its path as it was met and its final segment as name.
pub fn file_info_for(base: &str, path: &str, is_file: bool, matched: bool) -> (r: Option<FileInfo>)
    ensures
        selected(r) == selection(base@, path@, is_file, matched),
{
    if is_file && matched && starts_with_base(base, path) {
        let n: usize = base.unicode_len();
        let m: usize = path.unicode_len();
        assert((base@ + seq!['/']).len() == n + 1);
        if n < m && !has_hidden_segment(path, n + 1) {
            Some(
                FileInfo {
                    absolute_path: String::from_str(path),
                    filename: String::from_str(file_name_of(path)),
                },
            )
        } else {
            None
        }
    } else {
        None
    }
}

/// Decides on one entry met during traversal.
pub fn select_file(matcher: &Matcher, path: &str, is_file: bool) -> (r: Option<FileInfo>)
    ensures
        selected(r) == selection(
            matcher.base(),
            path@,
            is_file,
            glob_matches(matcher.glob(), path@),
        ),
{
    proof {
        use_type_invariant(matcher);
    }
    let matched = glob_is_match(&matcher.inner, path);
    file_info_for(matcher.base.as_str(), path, is_file, matched)
}

/// A selected file lies under the matcher's base, and the anchored glob
/// matches its path.
pub proof fn lemma_selected_is_accepted(matcher: Matcher, path: Seq<char>, is_file: bool)
    requires
        selection(matcher.base(), path, is_file, glob_matches(matcher.glob(), path)) is Some,
    ensures
        matcher.accepts(path),
        is_file,
        path.subrange(0, matcher.base().len() as int) == matcher.base(),
        path[matcher.base().len() as int] == '/',
{
    let want = matcher.base() + seq!['/'];
    let n = matcher.base().len() as int;
    assert(want.subrange(0, n) =~= matcher.base());
    assert(path.subrange(0, n) =~= path.subrange(0, n + 1).subrange(0, n));
    assert(want[n] == '/');
    assert(path.subrange(0, n + 1)[n] == path[n]);
}

/// No selected file is reached through a hidden entry below the base:
/// neither its own name nor the name of a directory between the base and
/// the file starts with a dot.
pub proof fn lemma_selected_is_visible(base: Seq<char>, path: Seq<char>, is_file: bool, matched: bool, i: int)
    requires
        selection(base, path, is_file, matched) is Some,
        base.len() < i < path.len(),
        i == base.len() + 1 || path[i - 1] == '/',
    ensures
        path[i] != '.',
{
    let rest = below_base(base, path);
    let j = i - base.len() - 1;
    assert(rest[j] == path[i]);
    if j > 0 {
        assert(rest[j - 1] == path[i - 1]);
    }
}

/// The final segment starts right after the last separator, or at the
/// start of the path where it has none.
pub proof fn lemma_last_segment_start(path: Seq<char>) -> (k: int)
    ensures
        0 <= k <= path.len(),
        last_segment(path) == path.subrange(k, path.len() as int),
        k == 0 || path[k - 1] == '/',
        forall|j: int| k <= j < path.len() ==> path[j] != '/',
    decreases path.len(),
{
    if path.len() == 0 {
        assert(last_segment(path) =~= path.subrange(0, 0));
        0
    } else if path.last() == '/' {
        assert(last_segment(path) =~= path.subrange(path.len() as int, path.len() as int));
        path.len() as int
    } else {
        let k = lemma_last_segment_start(path.drop_last());
        assert forall|j: int| k <= j < path.len() implies path[j] != '/' by {
            if j < path.len() - 1 {
                assert(path.drop_last()[j] == path[j]);
            }
        }
        if k > 0 {
            assert(path.drop_last()[k - 1] == path[k - 1]);
        }
        assert(path.drop_last().subrange(k, path.len() - 1).push(path.last()) =~= path.subrange(
            k,
            path.len() as int,
        ));
        k
    }
}

/// The name under which a selected file is reported is not hidden.
pub proof fn lemma_selected_name_is_visible(
    base: Seq<char>,
    path: Seq<char>,
    is_file: bool,
    matched: bool,
)
    requires
        selection(base, path, is_file, matched) is Some,
    ensures
        !hidden_name(last_segment(path)),
{
    let k = lemma_last_segment_start(path);
    let n = base.len() as int;
    let want = base + seq!['/'];
    assert(want[n] == '/');
    assert(path.subrange(0, n + 1)[n] == path[n]);
    if last_segment(path).len() > 0 {
        assert(last_segment(path)[0] == path[k]);
        lemma_selected_is_visible(base, path, is_file, matched, k);
    }
}

} // verus!
