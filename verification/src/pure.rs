//! The lexical engine: dialect descriptors and the pure splitting,
//! joining and extension operations on path text.

use crate::comp::Component;
use crate::comp::Components;
use crate::comp::SpecComponent;
use vstd::prelude::*;
use vstd::string::StrSliceExecFns;
use vstd::string::StringExecFns;

verus! {

/// A description of a path dialect: which characters separate components,
/// which character separates an extension from a file stem, and which, if
/// any, separates a drive prefix from the rest of the path.
///
/// Every separator is a single character. The current-directory token is
/// `.` and the parent-directory token is `..` in every dialect.
#[derive(Clone, Copy, Debug)]
pub struct Dialect {
    /// The primary component separator, e.g. `/` on Posix systems.
    pub primary_separator: char,
    /// An optional secondary component separator, e.g. `/` on Windows,
    /// where `\` is primary.
    pub secondary_separator: Option<char>,
    /// The character that separates a file stem from its extension.
    pub extension_separator: char,
    /// The character that separates a drive prefix from the rest of the
    /// path, if the dialect has drives.
    pub drive_separator: Option<char>,
}

/// Whether `c` is one of the dialect's component separators.
pub open spec fn is_separator(d: Dialect, c: char) -> bool {
    c == d.primary_separator || d.secondary_separator == Some(c)
}

/// The index of the first separator at or after position `i`, or `s.len()`
/// if no separator occurs there.
pub open spec fn find_sep_from(d: Dialect, s: Seq<char>, i: int) -> int
    decreases s.len() - i,
{
    if i < 0 || i >= s.len() {
        s.len() as int
    } else if is_separator(d, s[i]) {
        i
    } else {
        find_sep_from(d, s, i + 1)
    }
}

/// The index of the last separator at or before position `i`, or `-1` if
/// no separator occurs there.
pub open spec fn rfind_sep_from(d: Dialect, s: Seq<char>, i: int) -> int
    decreases i + 1,
{
    if i < 0 || i >= s.len() {
        -1
    } else if is_separator(d, s[i]) {
        i
    } else {
        rfind_sep_from(d, s, i - 1)
    }
}

/// `find_sep_from` stays within bounds, lands on a separator when one
/// exists, and skips no separator.
pub proof fn lemma_find_sep_from(d: Dialect, s: Seq<char>, i: int)
    requires
        0 <= i <= s.len(),
    ensures
        i <= find_sep_from(d, s, i) <= s.len(),
        find_sep_from(d, s, i) < s.len() ==> is_separator(d, s[find_sep_from(d, s, i)]),
        forall|j: int| i <= j < find_sep_from(d, s, i) ==> !is_separator(d, s[j]),
    decreases s.len() - i,
{
    if i < s.len() && !is_separator(d, s[i]) {
        lemma_find_sep_from(d, s, i + 1);
    }
}

/// `rfind_sep_from` stays within bounds, lands on a separator when one
/// exists, and skips no separator.
pub proof fn lemma_rfind_sep_from(d: Dialect, s: Seq<char>, i: int)
    requires
        -1 <= i < s.len(),
    ensures
        -1 <= rfind_sep_from(d, s, i) <= i,
        rfind_sep_from(d, s, i) >= 0 ==> is_separator(d, s[rfind_sep_from(d, s, i)]),
        forall|j: int| rfind_sep_from(d, s, i) < j <= i ==> !is_separator(d, s[j]),
    decreases i + 1,
{
    if 0 <= i && !is_separator(d, s[i]) {
        lemma_rfind_sep_from(d, s, i - 1);
    }
}

impl Dialect {
    /// Whether `c` is one of this dialect's component separators.
    pub fn is_component_separator(&self, c: char) -> (r: bool)
        ensures
            r == is_separator(*self, c),
    {
        c == self.primary_separator || match self.secondary_separator {
            Some(c2) => c == c2,
            None => false,
        }
    }
}

/// The index of the first separator in `s`, or `s@.len()` if `s` holds no
/// separator.
fn find_first_sep(s: &str, d: &Dialect) -> (r: usize)
    ensures
        r == find_sep_from(*d, s@, 0),
{
    let n = s.unicode_len();
    let mut i: usize = 0;
    while i < n
        invariant
            0 <= i <= n == s@.len(),
            find_sep_from(*d, s@, 0) == find_sep_from(*d, s@, i as int),
        decreases n - i,
    {
        let c = s.get_char(i);
        if d.is_component_separator(c) {
            return i;
        }
        i = i + 1;
    }
    i
}

/// Whether `s` is the current-directory token `.`.
pub open spec fn is_cur_dir_tok(s: Seq<char>) -> bool {
    s.len() == 1 && s[0] == '.'
}

/// Whether `s` is the parent-directory token `..`.
pub open spec fn is_parent_dir_tok(s: Seq<char>) -> bool {
    s.len() == 2 && s[0] == '.' && s[1] == '.'
}

/// The first component of `s` and the text after it, if any.
///
/// The raw token before the first separator is classified: the
/// current-directory token is a real `CurDir` component only while nothing
/// has been emitted yet (`progressed` is false) and is otherwise skipped;
/// the parent-directory token is always a `ParentDir` component; an empty
/// token marks the root when nothing has been emitted yet and is otherwise
/// nothing; any other token is a `Normal` component.
pub open spec fn spec_split_first_component(d: Dialect, s: Seq<char>, progressed: bool) -> (
    Option<SpecComponent>,
    Option<Seq<char>>,
)
    decreases s.len(),
    via spec_split_first_component_decreases
{
    let k = find_sep_from(d, s, 0);
    let tok = s.subrange(0, k);
    if k == s.len() {
        if is_cur_dir_tok(tok) {
            if progressed {
                (None, None)
            } else {
                (Some(SpecComponent::CurDir), None)
            }
        } else if is_parent_dir_tok(tok) {
            (Some(SpecComponent::ParentDir), None)
        } else if tok.len() == 0 {
            (None, None)
        } else {
            (Some(SpecComponent::Normal(tok)), None)
        }
    } else {
        let rest = s.subrange(k + 1, s.len() as int);
        if is_cur_dir_tok(tok) {
            if progressed {
                spec_split_first_component(d, rest, progressed)
            } else {
                (Some(SpecComponent::CurDir), Some(rest))
            }
        } else if is_parent_dir_tok(tok) {
            (Some(SpecComponent::ParentDir), Some(rest))
        } else if tok.len() == 0 {
            if progressed {
                (None, Some(rest))
            } else {
                (Some(SpecComponent::Root), Some(rest))
            }
        } else {
            (Some(SpecComponent::Normal(tok)), Some(rest))
        }
    }
}

#[via_fn]
proof fn spec_split_first_component_decreases(d: Dialect, s: Seq<char>, progressed: bool) {
    lemma_find_sep_from(d, s, 0);
}

/// The text before the last component of `s`, and that component.
///
/// Scanning backward, a current-directory token is always noise — except
/// when the whole remaining path is a lone `.`, which is the leading one
/// and a real `CurDir` component — and an empty token mid-scan is a
/// collapsed separator and is skipped; an empty token with nothing before
/// it resolves to the root. A parent-directory token is always a real
/// `ParentDir` component. The first result is `None` once the path is
/// fully consumed.
pub open spec fn spec_split_last_component(d: Dialect, s: Seq<char>) -> (
    Option<Seq<char>>,
    Option<SpecComponent>,
)
    decreases s.len(),
    via spec_split_last_component_decreases
{
    let k = rfind_sep_from(d, s, s.len() - 1);
    if k < 0 {
        if is_cur_dir_tok(s) {
            (Some(Seq::empty()), Some(SpecComponent::CurDir))
        } else if is_parent_dir_tok(s) {
            (Some(Seq::empty()), Some(SpecComponent::ParentDir))
        } else if s.len() == 0 {
            (None, None)
        } else {
            (Some(Seq::empty()), Some(SpecComponent::Normal(s)))
        }
    } else {
        let parent = s.subrange(0, k);
        let sep = s.subrange(k, k + 1);
        let tok = s.subrange(k + 1, s.len() as int);
        if is_cur_dir_tok(tok) {
            if parent.len() == 0 {
                (Some(Seq::empty()), Some(SpecComponent::Root))
            } else {
                spec_split_last_component(d, parent)
            }
        } else if is_parent_dir_tok(tok) {
            if parent.len() == 0 {
                (Some(sep), Some(SpecComponent::ParentDir))
            } else {
                (Some(parent), Some(SpecComponent::ParentDir))
            }
        } else if tok.len() == 0 {
            if parent.len() == 0 {
                (None, Some(SpecComponent::Root))
            } else {
                spec_split_last_component(d, parent)
            }
        } else {
            if parent.len() == 0 {
                (Some(sep), Some(SpecComponent::Normal(tok)))
            } else {
                (Some(parent), Some(SpecComponent::Normal(tok)))
            }
        }
    }
}

#[via_fn]
proof fn spec_split_last_component_decreases(d: Dialect, s: Seq<char>) {
    lemma_rfind_sep_from(d, s, s.len() - 1);
}

/// The parent of the path and the text of its last real component.
///
/// This mirrors [`spec_split_last_component`], but projects each result to
/// path text: trailing `.` tokens and collapsed separators are skipped, a
/// trailing parent-directory token has a parent but no file name, and the
/// parent is `None` exactly when the path denotes the root or is empty.
pub open spec fn spec_split_last(d: Dialect, s: Seq<char>) -> (
    Option<Seq<char>>,
    Option<Seq<char>>,
)
    decreases s.len(),
    via spec_split_last_decreases
{
    let k = rfind_sep_from(d, s, s.len() - 1);
    if k < 0 {
        if is_cur_dir_tok(s) {
            (Some(Seq::<char>::empty()), None)
        } else if is_parent_dir_tok(s) {
            (Some(Seq::<char>::empty()), None)
        } else if s.len() == 0 {
            (None, None)
        } else {
            (Some(Seq::<char>::empty()), Some(s))
        }
    } else {
        let parent = s.subrange(0, k);
        let sep = s.subrange(k, k + 1);
        let tok = s.subrange(k + 1, s.len() as int);
        if is_cur_dir_tok(tok) {
            spec_split_last(d, parent)
        } else if is_parent_dir_tok(tok) {
            if parent.len() == 0 {
                (Some(sep), None)
            } else {
                (Some(parent), None)
            }
        } else if tok.len() == 0 {
            if parent.len() == 0 {
                (None, None)
            } else {
                spec_split_last(d, parent)
            }
        } else {
            if parent.len() == 0 {
                (Some(sep), Some(tok))
            } else {
                (Some(parent), Some(tok))
            }
        }
    }
}

#[via_fn]
proof fn spec_split_last_decreases(d: Dialect, s: Seq<char>) {
    lemma_rfind_sep_from(d, s, s.len() - 1);
}

/// The index of the last separator in `s`, or `None` if `s` holds no
/// separator.
fn rfind_last_sep(s: &str, d: &Dialect) -> (r: Option<usize>)
    ensures
        match r {
            Some(k) => k == rfind_sep_from(*d, s@, s@.len() - 1),
            None => rfind_sep_from(*d, s@, s@.len() - 1) == -1,
        },
{
    let n = s.unicode_len();
    let mut i: usize = n;
    while i > 0
        invariant
            0 <= i <= n == s@.len(),
            rfind_sep_from(*d, s@, n - 1) == rfind_sep_from(*d, s@, i - 1),
        decreases i,
    {
        let c = s.get_char(i - 1);
        if d.is_component_separator(c) {
            return Some(i - 1);
        }
        i = i - 1;
    }
    None
}

/// Splits `s` at the first separator of the dialect: the text before it,
/// the separator itself, and the text after it. `None` when `s` holds no
/// separator.
pub fn split_once_with_delimiter<'i>(s: &'i str, d: &Dialect) -> (r: Option<
    (&'i str, &'i str, &'i str),
>)
    ensures
        ({
            let k = find_sep_from(*d, s@, 0);
            match r {
                Some(t) => k < s@.len() && t.0@ == s@.subrange(0, k) && t.1@ == s@.subrange(
                    k,
                    k + 1,
                ) && t.2@ == s@.subrange(k + 1, s@.len() as int),
                None => k == s@.len(),
            }
        }),
{
    let n = s.unicode_len();
    let k = find_first_sep(s, d);
    proof {
        lemma_find_sep_from(*d, s@, 0);
    }
    if k == n {
        None
    } else {
        let a = s.substring_char(0, k);
        let b = s.substring_char(k, k + 1);
        let c = s.substring_char(k + 1, n);
        Some((a, b, c))
    }
}

/// Splits `s` at the last separator of the dialect: the text before it,
/// the separator itself, and the text after it. `None` when `s` holds no
/// separator.
pub fn rsplit_once_with_delimiter<'i>(s: &'i str, d: &Dialect) -> (r: Option<
    (&'i str, &'i str, &'i str),
>)
    ensures
        ({
            let k = rfind_sep_from(*d, s@, s@.len() - 1);
            match r {
                Some(t) => 0 <= k < s@.len() && t.0@ == s@.subrange(0, k) && t.1@ == s@.subrange(
                    k,
                    k + 1,
                ) && t.2@ == s@.subrange(k + 1, s@.len() as int),
                None => k == -1,
            }
        }),
{
    let n = s.unicode_len();
    match rfind_last_sep(s, d) {
        Some(k) => {
            proof {
                lemma_rfind_sep_from(*d, s@, s@.len() - 1);
            }
            let a = s.substring_char(0, k);
            let b = s.substring_char(k, k + 1);
            let c = s.substring_char(k + 1, n);
            Some((a, b, c))
        },
        None => None,
    }
}

/// A path dialect chosen at the type level: a type that names the
/// constants the lexical engine is parameterized by.
pub trait ParsablePath {
    /// The dialect the type stands for.
    spec fn spec_dialect() -> Dialect;

    /// The dialect the type stands for.
    fn dialect() -> (d: Dialect)
        ensures
            d == Self::spec_dialect(),
    ;
}

/// The empty path text.
pub(crate) fn empty_str() -> (r: &'static str)
    ensures
        r@ == Seq::<char>::empty(),
{
    proof {
        reveal_strlit("");
        assert(""@ =~= Seq::<char>::empty());
    }
    ""
}

/// Whether `s` is the current-directory token `.`.
fn is_current_dir_token(s: &str) -> (r: bool)
    ensures
        r == is_cur_dir_tok(s@),
{
    s.unicode_len() == 1 && s.get_char(0) == '.'
}

/// Whether `s` is the parent-directory token `..`.
fn is_parent_dir_token(s: &str) -> (r: bool)
    ensures
        r == is_parent_dir_tok(s@),
{
    s.unicode_len() == 2 && s.get_char(0) == '.' && s.get_char(1) == '.'
}

/// The raw first token of the path and, when a separator follows it, the
/// separator and the rest of the path. `.` and `..` are not interpreted.
pub fn split_first_lexical<'i>(path: &'i str, d: &Dialect) -> (r: (&'i str, Option<
    (&'i str, &'i str),
>))
    ensures
        ({
            let k = find_sep_from(*d, path@, 0);
            r.0@ == path@.subrange(0, k) && match r.1 {
                Some(t) => k < path@.len() && t.0@ == path@.subrange(k, k + 1) && t.1@
                    == path@.subrange(k + 1, path@.len() as int),
                None => k == path@.len() && r.0@ == path@,
            }
        }),
{
    proof {
        assert(path@.subrange(0, path@.len() as int) =~= path@);
    }
    match split_once_with_delimiter(path, d) {
        Some((prefix, separator, component)) => (prefix, Some((separator, component))),
        None => (path, None),
    }
}

/// The raw last token of the path and, when a separator precedes it, the
/// text before the separator and the separator. `.` and `..` are not
/// interpreted.
pub fn split_last_lexical<'i>(path: &'i str, d: &Dialect) -> (r: (Option<(&'i str, &'i str)>,
    &'i str,
))
    ensures
        ({
            let k = rfind_sep_from(*d, path@, path@.len() - 1);
            match r.0 {
                Some(t) => 0 <= k < path@.len() && t.0@ == path@.subrange(0, k) && t.1@
                    == path@.subrange(k, k + 1) && r.1@ == path@.subrange(
                    k + 1,
                    path@.len() as int,
                ),
                None => k == -1 && r.1@ == path@,
            }
        }),
{
    match rsplit_once_with_delimiter(path, d) {
        Some((parent, separator, component)) => (Some((parent, separator)), component),
        None => (None, path),
    }
}

/// The first component of the path and the rest of the path, following the
/// classification of [`spec_split_first_component`].
pub fn split_first_component<'i>(s: &'i str, d: &Dialect, progressed: bool) -> (r: (Option<
    Component<'i>,
>, Option<&'i str>))
    ensures
        ({
            let (c, rest) = spec_split_first_component(*d, s@, progressed);
            (match (r.0, c) {
                (Some(x), Some(y)) => x@ == y,
                (None, None) => true,
                _ => false,
            }) && (match (r.1, rest) {
                (Some(x), Some(y)) => x@ == y,
                (None, None) => true,
                _ => false,
            })
        }),
{
    let mut cur = s;
    loop
        invariant
            spec_split_first_component(*d, cur@, progressed) == spec_split_first_component(
                *d,
                s@,
                progressed,
            ),
        decreases cur@.len(),
    {
        proof {
            lemma_find_sep_from(*d, cur@, 0);
        }
        let (token, more) = split_first_lexical(cur, d);
        if is_current_dir_token(token) {
            match more {
                Some((_, suffix)) => {
                    if progressed {
                        cur = suffix;
                    } else {
                        return (Some(Component::CurDir), Some(suffix));
                    }
                },
                None => {
                    if progressed {
                        return (None, None);
                    } else {
                        return (Some(Component::CurDir), None);
                    }
                },
            }
        } else if is_parent_dir_token(token) {
            match more {
                Some((_, suffix)) => {
                    return (Some(Component::ParentDir), Some(suffix));
                },
                None => {
                    return (Some(Component::ParentDir), None);
                },
            }
        } else if token.unicode_len() == 0 {
            match more {
                Some((_, suffix)) => {
                    if progressed {
                        return (None, Some(suffix));
                    } else {
                        return (Some(Component::Root), Some(suffix));
                    }
                },
                None => {
                    return (None, None);
                },
            }
        } else {
            match more {
                Some((_, suffix)) => {
                    return (Some(Component::Normal(token)), Some(suffix));
                },
                None => {
                    return (Some(Component::Normal(token)), None);
                },
            }
        }
    }
}

/// The text before the last component of the path, and that component,
/// following the classification of [`spec_split_last_component`].
pub fn split_last_component<'i>(s: &'i str, d: &Dialect) -> (r: (Option<&'i str>, Option<
    Component<'i>,
>))
    ensures
        ({
            let (rest, c) = spec_split_last_component(*d, s@);
            (match (r.0, rest) {
                (Some(x), Some(y)) => x@ == y,
                (None, None) => true,
                _ => false,
            }) && (match (r.1, c) {
                (Some(x), Some(y)) => x@ == y,
                (None, None) => true,
                _ => false,
            })
        }),
{
    let mut cur = s;
    loop
        invariant
            spec_split_last_component(*d, cur@) == spec_split_last_component(*d, s@),
        decreases cur@.len(),
    {
        proof {
            lemma_rfind_sep_from(*d, cur@, cur@.len() - 1);
        }
        let (before, token) = split_last_lexical(cur, d);
        if is_current_dir_token(token) {
            match before {
                Some((parent, _)) => {
                    if parent.unicode_len() == 0 {
                        return (Some(parent), Some(Component::Root));
                    } else {
                        cur = parent;
                    }
                },
                None => {
                    return (Some(empty_str()), Some(Component::CurDir));
                },
            }
        } else if is_parent_dir_token(token) {
            match before {
                Some((parent, separator)) => {
                    if parent.unicode_len() == 0 {
                        return (Some(separator), Some(Component::ParentDir));
                    } else {
                        return (Some(parent), Some(Component::ParentDir));
                    }
                },
                None => {
                    return (Some(empty_str()), Some(Component::ParentDir));
                },
            }
        } else if token.unicode_len() == 0 {
            match before {
                Some((parent, _)) => {
                    if parent.unicode_len() == 0 {
                        return (None, Some(Component::Root));
                    } else {
                        cur = parent;
                    }
                },
                None => {
                    return (None, None);
                },
            }
        } else {
            match before {
                Some((parent, separator)) => {
                    if parent.unicode_len() == 0 {
                        return (Some(separator), Some(Component::Normal(token)));
                    } else {
                        return (Some(parent), Some(Component::Normal(token)));
                    }
                },
                None => {
                    return (Some(empty_str()), Some(Component::Normal(token)));
                },
            }
        }
    }
}

/// The parent of the path and the text of its last real component,
/// following [`spec_split_last`].
pub fn split_last<'i>(s: &'i str, d: &Dialect) -> (r: (Option<&'i str>, Option<&'i str>))
    ensures
        ({
            let (p, f) = spec_split_last(*d, s@);
            (match (r.0, p) {
                (Some(x), Some(y)) => x@ == y,
                (None, None) => true,
                _ => false,
            }) && (match (r.1, f) {
                (Some(x), Some(y)) => x@ == y,
                (None, None) => true,
                _ => false,
            })
        }),
{
    let mut cur = s;
    loop
        invariant
            spec_split_last(*d, cur@) == spec_split_last(*d, s@),
        decreases cur@.len(),
    {
        proof {
            lemma_rfind_sep_from(*d, cur@, cur@.len() - 1);
        }
        let (before, token) = split_last_lexical(cur, d);
        if is_current_dir_token(token) {
            match before {
                Some((parent, _)) => {
                    cur = parent;
                },
                None => {
                    return (Some(empty_str()), None);
                },
            }
        } else if is_parent_dir_token(token) {
            match before {
                Some((parent, separator)) => {
                    if parent.unicode_len() == 0 {
                        return (Some(separator), None);
                    } else {
                        return (Some(parent), None);
                    }
                },
                None => {
                    return (Some(empty_str()), None);
                },
            }
        } else if token.unicode_len() == 0 {
            match before {
                Some((parent, _)) => {
                    if parent.unicode_len() == 0 {
                        return (None, None);
                    } else {
                        cur = parent;
                    }
                },
                None => {
                    return (None, None);
                },
            }
        } else {
            match before {
                Some((parent, separator)) => {
                    if parent.unicode_len() == 0 {
                        return (Some(separator), Some(token));
                    } else {
                        return (Some(parent), Some(token));
                    }
                },
                None => {
                    return (Some(empty_str()), Some(token));
                },
            }
        }
    }
}

/// The parent of the path.
pub open spec fn spec_parent(d: Dialect, s: Seq<char>) -> Option<Seq<char>> {
    spec_split_last(d, s).0
}

/// The text of the last real component of the path.
pub open spec fn spec_file_name(d: Dialect, s: Seq<char>) -> Option<Seq<char>> {
    spec_split_last(d, s).1
}

/// The parent of the path: the remainder after stripping one trailing
/// real component and the noise around it, or `None` when the path
/// denotes the root or is empty.
pub fn parent<'i>(s: &'i str, d: &Dialect) -> (r: Option<&'i str>)
    ensures
        match (r, spec_parent(*d, s@)) {
            (Some(x), Some(y)) => x@ == y,
            (None, None) => true,
            _ => false,
        },
{
    split_last(s, d).0
}

/// The text of the last real component of the path, or `None` for a path
/// ending in a parent-directory token, for the root, or for an empty
/// path.
pub fn file_name<'i>(s: &'i str, d: &Dialect) -> (r: Option<&'i str>)
    ensures
        match (r, spec_file_name(*d, s@)) {
            (Some(x), Some(y)) => x@ == y,
            (None, None) => true,
            _ => false,
        },
{
    split_last(s, d).1
}

/// Splitting off the first component leaves strictly shorter text.
pub proof fn lemma_split_first_component_shrinks(d: Dialect, s: Seq<char>, progressed: bool)
    ensures
        spec_split_first_component(d, s, progressed).1 matches Some(r) ==> r.len() < s.len(),
    decreases s.len(),
{
    lemma_find_sep_from(d, s, 0);
    let k = find_sep_from(d, s, 0);
    if k < s.len() {
        let rest = s.subrange(k + 1, s.len() as int);
        if is_cur_dir_tok(s.subrange(0, k)) && progressed {
            lemma_split_first_component_shrinks(d, rest, progressed);
        }
    }
}

/// Splitting off the last component leaves strictly shorter text.
pub proof fn lemma_split_last_component_shrinks(d: Dialect, s: Seq<char>)
    ensures
        spec_split_last_component(d, s).0 matches Some(r) ==> r.len() < s.len(),
    decreases s.len(),
{
    lemma_rfind_sep_from(d, s, s.len() - 1);
    let k = rfind_sep_from(d, s, s.len() - 1);
    if k >= 0 {
        let parent = s.subrange(0, k);
        let tok = s.subrange(k + 1, s.len() as int);
        if parent.len() > 0 && (is_cur_dir_tok(tok) || tok.len() == 0) {
            lemma_split_last_component_shrinks(d, parent);
        }
    }
}

/// The full sequence of real components of the path, extracted from the
/// front: noise tokens contribute nothing and extraction continues past
/// them.
pub open spec fn components_forward(d: Dialect, s: Seq<char>, progressed: bool) -> Seq<
    SpecComponent,
>
    decreases s.len(),
    via components_forward_decreases
{
    match spec_split_first_component(d, s, progressed) {
        (Some(c), Some(rest)) => seq![c] + components_forward(d, rest, true),
        (Some(c), None) => seq![c],
        (None, Some(rest)) => components_forward(d, rest, true),
        (None, None) => Seq::empty(),
    }
}

#[via_fn]
proof fn components_forward_decreases(d: Dialect, s: Seq<char>, progressed: bool) {
    lemma_split_first_component_shrinks(d, s, progressed);
}

/// The components a forward traversal yields before it first comes up
/// empty: unlike [`components_forward`], the traversal stops at a
/// collapsed separator even when real components follow it, because a
/// cursor that emits nothing for a step ends the collection.
pub open spec fn components_collected(d: Dialect, s: Seq<char>, progressed: bool) -> Seq<
    SpecComponent,
>
    decreases s.len(),
    via components_collected_decreases
{
    match spec_split_first_component(d, s, progressed) {
        (Some(c), Some(rest)) => seq![c] + components_collected(d, rest, true),
        (Some(c), None) => seq![c],
        (None, _) => Seq::empty(),
    }
}

#[via_fn]
proof fn components_collected_decreases(d: Dialect, s: Seq<char>, progressed: bool) {
    lemma_split_first_component_shrinks(d, s, progressed);
}

/// Whether a forward traversal runs to the end of the path without
/// pausing: wherever a step emits nothing but leaves a remainder, no real
/// component may remain in that remainder.
pub open spec fn forward_complete(d: Dialect, s: Seq<char>, progressed: bool) -> bool
    decreases s.len(),
    via forward_complete_decreases
{
    match spec_split_first_component(d, s, progressed) {
        (Some(c), Some(rest)) => forward_complete(d, rest, true),
        (Some(c), None) => true,
        (None, Some(rest)) => components_forward(d, rest, true) == Seq::<SpecComponent>::empty(),
        (None, None) => true,
    }
}

#[via_fn]
proof fn forward_complete_decreases(d: Dialect, s: Seq<char>, progressed: bool) {
    lemma_split_first_component_shrinks(d, s, progressed);
}

/// The sequence of real components of the path as a backward traversal
/// finds them, in forward order: the last extracted component stands
/// last.
pub open spec fn components_backward(d: Dialect, s: Seq<char>) -> Seq<SpecComponent>
    decreases s.len(),
    via components_backward_decreases
{
    match spec_split_last_component(d, s) {
        (Some(rest), Some(c)) => components_backward(d, rest) + seq![c],
        (None, Some(c)) => seq![c],
        (_, None) => Seq::empty(),
    }
}

#[via_fn]
proof fn components_backward_decreases(d: Dialect, s: Seq<char>) {
    lemma_split_last_component_shrinks(d, s);
}

/// Whether the path is absolute: it starts with one of the dialect's
/// separators.
pub open spec fn spec_is_absolute(d: Dialect, s: Seq<char>) -> bool {
    s.len() > 0 && is_separator(d, s[0])
}

/// Whether the path ends with one of the dialect's separators.
pub open spec fn spec_ends_with_separator(d: Dialect, s: Seq<char>) -> bool {
    s.len() > 0 && is_separator(d, s[s.len() - 1])
}

/// The path with exactly one trailing separator: unchanged when it
/// already ends with a separator, and with the primary separator appended
/// otherwise (an empty path becomes a single separator).
pub open spec fn spec_as_dir(d: Dialect, s: Seq<char>) -> Seq<char> {
    if spec_ends_with_separator(d, s) {
        s
    } else {
        s.push(d.primary_separator)
    }
}

/// The join of `parent` and `child`: `child` alone when `child` is
/// absolute, and otherwise `parent` with one trailing separator ensured,
/// followed by `child`.
pub open spec fn spec_join(d: Dialect, parent: Seq<char>, child: Seq<char>) -> Seq<char> {
    if spec_is_absolute(d, child) {
        child
    } else {
        spec_as_dir(d, parent) + child
    }
}

/// Whether the path is absolute: true exactly when it starts with one of
/// the dialect's separators. A drive prefix without a separator after it
/// is not absolute under this rule.
pub fn is_absolute(path: &str, d: &Dialect) -> (r: bool)
    ensures
        r == spec_is_absolute(*d, path@),
{
    if path.unicode_len() == 0 {
        false
    } else {
        d.is_component_separator(path.get_char(0))
    }
}

/// Whether the path is relative: the negation of [`is_absolute`].
pub fn is_relative(path: &str, d: &Dialect) -> (r: bool)
    ensures
        r == !spec_is_absolute(*d, path@),
{
    !is_absolute(path, d)
}

/// Relies on `String::push`: it appends exactly the given character to
/// the end of the string.
#[verifier::external_body]
fn push_char(s: &mut String, c: char)
    ensures
        final(s)@ == old(s)@.push(c),
{
    s.push(c);
}

/// Appends the primary separator unless the path already ends with a
/// separator of the dialect.
pub fn as_dir(path: &mut String, d: &Dialect)
    ensures
        final(path)@ == spec_as_dir(*d, old(path)@),
{
    let n = path.as_str().unicode_len();
    let ends = n > 0 && d.is_component_separator(path.as_str().get_char(n - 1));
    if !ends {
        push_char(path, d.primary_separator);
    }
}

/// Joins `child` onto `parent` in place: `parent` is replaced by `child`
/// when `child` is absolute, and otherwise `child` is appended behind
/// exactly one separator.
pub fn join_in_place(parent: &mut String, child: &str, d: &Dialect)
    ensures
        final(parent)@ == spec_join(*d, old(parent)@, child@),
{
    if is_absolute(child, d) {
        *parent = child.to_owned();
        return ;
    }
    as_dir(parent, d);
    parent.append(child);
}

/// Joins the two paths: `child` alone when `child` is absolute, and
/// otherwise `parent` with one trailing separator ensured, followed by
/// `child`.
pub fn join(parent: &str, child: &str, d: &Dialect) -> (r: String)
    ensures
        r@ == spec_join(*d, parent@, child@),
        spec_is_absolute(*d, child@) ==> r@ == child@,
{
    if is_absolute(child, d) {
        return child.to_owned();
    }
    let mut joined = parent.to_owned();
    as_dir(&mut joined, d);
    joined.append(child);
    joined
}

/// The index of the last occurrence of `c` at or before position `i` in
/// `s`, or `-1` if `c` does not occur there.
pub open spec fn rfind_char_from(c: char, s: Seq<char>, i: int) -> int
    decreases i + 1,
{
    if i < 0 || i >= s.len() {
        -1
    } else if s[i] == c {
        i
    } else {
        rfind_char_from(c, s, i - 1)
    }
}

/// `rfind_char_from` stays within bounds, lands on `c` when it occurs,
/// and skips no occurrence.
pub proof fn lemma_rfind_char_from(c: char, s: Seq<char>, i: int)
    requires
        -1 <= i < s.len(),
    ensures
        -1 <= rfind_char_from(c, s, i) <= i,
        rfind_char_from(c, s, i) >= 0 ==> s[rfind_char_from(c, s, i)] == c,
        forall|j: int| rfind_char_from(c, s, i) < j <= i ==> s[j] != c,
    decreases i + 1,
{
    if 0 <= i && s[i] != c {
        lemma_rfind_char_from(c, s, i - 1);
    }
}

/// The index of the last occurrence of `c` in `s`, or `None` if `c` does
/// not occur in `s`.
fn rfind_char(s: &str, c: char) -> (r: Option<usize>)
    ensures
        match r {
            Some(k) => k == rfind_char_from(c, s@, s@.len() - 1),
            None => rfind_char_from(c, s@, s@.len() - 1) == -1,
        },
{
    let n = s.unicode_len();
    let mut i: usize = n;
    while i > 0
        invariant
            0 <= i <= n == s@.len(),
            rfind_char_from(c, s@, n - 1) == rfind_char_from(c, s@, i - 1),
        decreases i,
    {
        if s.get_char(i - 1) == c {
            return Some(i - 1);
        }
        i = i - 1;
    }
    None
}

/// The file stem and extension hidden in the path's file name: the name
/// is split at the last extension separator, unless that separator is
/// absent or leads the name (a hidden-file name), in which case the whole
/// name is the stem and there is no extension. The extension may be the
/// empty text, which is distinct from no extension.
pub open spec fn spec_split_extension(d: Dialect, s: Seq<char>) -> (
    Option<Seq<char>>,
    Option<Seq<char>>,
) {
    match spec_file_name(d, s) {
        Some(name) => {
            let j = rfind_char_from(d.extension_separator, name, name.len() - 1);
            if j <= 0 {
                (Some(name), None)
            } else {
                (Some(name.subrange(0, j)), Some(name.subrange(j + 1, name.len() as int)))
            }
        },
        None => (None, None),
    }
}

/// The file stem of the path.
pub open spec fn spec_file_stem(d: Dialect, s: Seq<char>) -> Option<Seq<char>> {
    spec_split_extension(d, s).0
}

/// The extension of the path.
pub open spec fn spec_extension(d: Dialect, s: Seq<char>) -> Option<Seq<char>> {
    spec_split_extension(d, s).1
}

/// The path's file stem with the extension separator and `ext` appended,
/// or the bare stem when `ext` is empty. A path without a file name
/// yields the bare `ext` behind the separator, or the empty text.
pub open spec fn spec_with_extension(d: Dialect, s: Seq<char>, ext: Seq<char>) -> Seq<char> {
    let stem = match spec_file_stem(d, s) {
        Some(t) => t,
        None => Seq::<char>::empty(),
    };
    if ext.len() > 0 {
        stem.push(d.extension_separator) + ext
    } else {
        stem
    }
}

/// The file stem and extension of the path, following
/// [`spec_split_extension`].
pub fn split_extension<'i>(s: &'i str, d: &Dialect) -> (r: (Option<&'i str>, Option<&'i str>))
    ensures
        ({
            let (stem, ext) = spec_split_extension(*d, s@);
            (match (r.0, stem) {
                (Some(x), Some(y)) => x@ == y,
                (None, None) => true,
                _ => false,
            }) && (match (r.1, ext) {
                (Some(x), Some(y)) => x@ == y,
                (None, None) => true,
                _ => false,
            })
        }),
{
    match file_name(s, d) {
        Some(name) => {
            proof {
                lemma_rfind_char_from(d.extension_separator, name@, name@.len() - 1);
            }
            match rfind_char(name, d.extension_separator) {
                Some(j) => {
                    if j == 0 {
                        (Some(name), None)
                    } else {
                        let n = name.unicode_len();
                        let stem = name.substring_char(0, j);
                        let ext = name.substring_char(j + 1, n);
                        (Some(stem), Some(ext))
                    }
                },
                None => (Some(name), None),
            }
        },
        None => (None, None),
    }
}

/// The file stem of the path: its file name up to the last extension
/// separator.
pub fn file_stem<'i>(s: &'i str, d: &Dialect) -> (r: Option<&'i str>)
    ensures
        match (r, spec_file_stem(*d, s@)) {
            (Some(x), Some(y)) => x@ == y,
            (None, None) => true,
            _ => false,
        },
{
    let (stem, _) = split_extension(s, d);
    stem
}

/// The extension of the path: what follows the last extension separator
/// of its file name.
pub fn extension<'i>(s: &'i str, d: &Dialect) -> (r: Option<&'i str>)
    ensures
        match (r, spec_extension(*d, s@)) {
            (Some(x), Some(y)) => x@ == y,
            (None, None) => true,
            _ => false,
        },
{
    let (_, ext) = split_extension(s, d);
    ext
}

/// The path's file stem with `ext` as its new extension, following
/// [`spec_with_extension`].
pub fn with_extension(path: &str, ext: &str, d: &Dialect) -> (r: String)
    ensures
        r@ == spec_with_extension(*d, path@, ext@),
{
    let (stem, _) = split_extension(path, d);
    let mut new = match stem {
        Some(t) => t.to_owned(),
        None => empty_str().to_owned(),
    };
    if ext.unicode_len() != 0 {
        push_char(&mut new, d.extension_separator);
        new.append(ext);
    }
    new
}

/// The index of the first occurrence of `c` at or after position `i` in
/// `s`, or `s.len()` if `c` does not occur there.
pub open spec fn find_char_from(c: char, s: Seq<char>, i: int) -> int
    decreases s.len() - i,
{
    if i < 0 || i >= s.len() {
        s.len() as int
    } else if s[i] == c {
        i
    } else {
        find_char_from(c, s, i + 1)
    }
}

/// The drive prefix of the path and the rest of the path: the text
/// before and after the first drive separator, or no prefix when the
/// dialect has no drive separator or the path holds none.
pub open spec fn spec_split_driver(d: Dialect, s: Seq<char>) -> (Option<Seq<char>>, Seq<char>) {
    match d.drive_separator {
        Some(c) => {
            let k = find_char_from(c, s, 0);
            if k < s.len() {
                (Some(s.subrange(0, k)), s.subrange(k + 1, s.len() as int))
            } else {
                (None, s)
            }
        },
        None => (None, s),
    }
}

/// The drive prefix of the path and the rest of the path, following
/// [`spec_split_driver`].
pub fn split_driver<'i>(path: &'i str, d: &Dialect) -> (r: (Option<&'i str>, &'i str))
    ensures
        ({
            let (drive, rest) = spec_split_driver(*d, path@);
            (match (r.0, drive) {
                (Some(x), Some(y)) => x@ == y,
                (None, None) => true,
                _ => false,
            }) && r.1@ == rest
        }),
{
    match d.drive_separator {
        Some(c) => {
            let n = path.unicode_len();
            let mut i: usize = 0;
            while i < n
                invariant
                    0 <= i <= n == path@.len(),
                    d.drive_separator == Some(c),
                    find_char_from(c, path@, 0) == find_char_from(c, path@, i as int),
                decreases n - i,
            {
                if path.get_char(i) == c {
                    let drive = path.substring_char(0, i);
                    let rest = path.substring_char(i + 1, n);
                    return (Some(drive), rest);
                }
                i = i + 1;
            }
            (None, path)
        },
        None => (None, path),
    }
}

/// A pure path: an owned text buffer read under the dialect named by the
/// type. Every operation is lexical and total; absence of a parent, file
/// name or extension is an `Option`, never an error.
pub trait PurePath: ParsablePath + Sized {
    /// The path's text.
    spec fn text(&self) -> Seq<char>;

    /// The raw text buffer of the path.
    fn as_text(&self) -> (r: &str)
        ensures
            r@ == self.text(),
    ;

    /// A path holding the given text.
    fn from_text(s: &str) -> (r: Self)
        ensures
            r.text() == s@,
    ;

    /// A path taking over the given text buffer.
    fn from_string(s: String) -> (r: Self)
        ensures
            r.text() == s@,
    ;

    /// The parent of the path, or `None` when the path denotes the root
    /// or is empty.
    fn parent(&self) -> (r: Option<Self>)
        ensures
            match (r, spec_parent(Self::spec_dialect(), self.text())) {
                (Some(x), Some(y)) => x.text() == y,
                (None, None) => true,
                _ => false,
            },
    {
        let d = Self::dialect();
        match parent(self.as_text(), &d) {
            Some(p) => Some(Self::from_text(p)),
            None => None,
        }
    }

    /// The text of the last real component of the path, if there is one.
    fn file_name(&self) -> (r: Option<&str>)
        ensures
            match (r, spec_file_name(Self::spec_dialect(), self.text())) {
                (Some(x), Some(y)) => x@ == y,
                (None, None) => true,
                _ => false,
            },
    {
        let d = Self::dialect();
        file_name(self.as_text(), &d)
    }

    /// Joins the given path onto this one in place: this path is replaced
    /// by `path` when `path` is absolute, and `path` is appended behind
    /// exactly one separator otherwise.
    fn join_in_place(&mut self, path: &Self)
        ensures
            final(self).text() == spec_join(Self::spec_dialect(), old(self).text(), path.text()),
    {
        let joined = self.join(path);
        *self = joined;
    }

    /// The join of this path and the given one: `path` alone when `path`
    /// is absolute, and this path with one trailing separator ensured,
    /// followed by `path`, otherwise.
    fn join(&self, path: &Self) -> (r: Self)
        ensures
            r.text() == spec_join(Self::spec_dialect(), self.text(), path.text()),
            spec_is_absolute(Self::spec_dialect(), path.text()) ==> r.text() == path.text(),
    {
        let d = Self::dialect();
        Self::from_string(join(self.as_text(), path.as_text(), &d))
    }

    /// The file stem of the path: its file name up to the last extension
    /// separator.
    fn file_stem(&self) -> (r: Option<&str>)
        ensures
            match (r, spec_file_stem(Self::spec_dialect(), self.text())) {
                (Some(x), Some(y)) => x@ == y,
                (None, None) => true,
                _ => false,
            },
    {
        let d = Self::dialect();
        file_stem(self.as_text(), &d)
    }

    /// The extension of the path: what follows the last extension
    /// separator of its file name.
    fn extension(&self) -> (r: Option<&str>)
        ensures
            match (r, spec_extension(Self::spec_dialect(), self.text())) {
                (Some(x), Some(y)) => x@ == y,
                (None, None) => true,
                _ => false,
            },
    {
        let d = Self::dialect();
        extension(self.as_text(), &d)
    }

    /// A path made of this path's file stem with `ext` as its extension,
    /// or of the bare stem when `ext` is empty.
    fn with_extension(&self, ext: &str) -> (r: Self)
        ensures
            r.text() == spec_with_extension(Self::spec_dialect(), self.text(), ext@),
    {
        let d = Self::dialect();
        Self::from_string(with_extension(self.as_text(), ext, &d))
    }

    /// Whether the path is absolute: it starts with a separator of the
    /// dialect.
    fn is_absolute(&self) -> (r: bool)
        ensures
            r == spec_is_absolute(Self::spec_dialect(), self.text()),
    {
        let d = Self::dialect();
        is_absolute(self.as_text(), &d)
    }

    /// Whether the path is relative: the negation of `is_absolute`.
    fn is_relative(&self) -> (r: bool)
        ensures
            r == !spec_is_absolute(Self::spec_dialect(), self.text()),
    {
        !self.is_absolute()
    }

    /// A fresh bidirectional cursor over the components of the path.
    fn components(&self) -> (r: Components<'_, Self>)
        ensures
            r.remaining() == self.text(),
            !r.front_progressed(),
            !r.back_progressed(),
    {
        Components::new(self.as_text())
    }
}

} // verus!
