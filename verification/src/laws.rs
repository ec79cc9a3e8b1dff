//! Laws of the lexical engine: how forward and backward component
//! extraction relate to each other and to `parent`, `file_name` and
//! `with_extension`.

use crate::comp::SpecComponent;
use crate::pure::components_backward;
use crate::pure::components_collected;
use crate::pure::components_forward;
use crate::pure::find_sep_from;
use crate::pure::forward_complete;
use crate::pure::is_cur_dir_tok;
use crate::pure::is_parent_dir_tok;
use crate::pure::is_separator;
use crate::pure::lemma_find_sep_from;
use crate::pure::lemma_rfind_sep_from;
use crate::pure::rfind_sep_from;
use crate::pure::spec_extension;
use crate::pure::spec_file_name;
use crate::pure::spec_is_absolute;
use crate::pure::spec_parent;
use crate::pure::spec_split_first_component;
use crate::pure::spec_split_last;
use crate::pure::spec_split_last_component;
use crate::pure::spec_with_extension;
use crate::pure::Dialect;
use vstd::prelude::*;

verus! {

/// A position before which no separator occurs, and which holds a
/// separator or ends the text, is where the first separator search lands.
proof fn lemma_find_is_first(d: Dialect, s: Seq<char>, k: int)
    requires
        0 <= k <= s.len(),
        forall|j: int| 0 <= j < k ==> !is_separator(d, s[j]),
        k < s.len() ==> is_separator(d, s[k]),
    ensures
        find_sep_from(d, s, 0) == k,
{
    lemma_find_sep_from(d, s, 0);
}

/// Splitting a path at any separator splits its sequence of real
/// components there: the text before the separator contributes its own
/// components, and the text after it is read as if something had already
/// been emitted. The split may not stand at the very front of the path
/// unless something has already been emitted, since the leading position
/// is special.
pub proof fn lemma_components_append(d: Dialect, a: Seq<char>, b: Seq<char>, c: char, prog: bool)
    requires
        is_separator(d, c),
        prog || a.len() > 0,
    ensures
        components_forward(d, a + seq![c] + b, prog) == components_forward(d, a, prog)
            + components_forward(d, b, true),
    decreases a.len(),
{
    let s = a + seq![c] + b;
    lemma_find_sep_from(d, a, 0);
    let ka = find_sep_from(d, a, 0);
    if ka == a.len() {
        // `a` holds no separator: the first token of `s` is `a` itself.
        assert(forall|j: int| 0 <= j < a.len() ==> s[j] == a[j] && !is_separator(d, s[j]));
        assert(s[a.len() as int] == c);
        lemma_find_is_first(d, s, a.len() as int);
        let tok = s.subrange(0, a.len() as int);
        let rest = s.subrange(a.len() as int + 1, s.len() as int);
        assert(tok =~= a);
        assert(rest =~= b);
        assert(a.subrange(0, a.len() as int) =~= a);
        if is_cur_dir_tok(a) {
            if prog {
                assert(spec_split_first_component(d, s, true) == spec_split_first_component(
                    d,
                    b,
                    true,
                ));
                lemma_components_match_eq(d, s, b, true);
                assert(components_forward(d, a, true) + components_forward(d, b, true)
                    =~= components_forward(d, b, true));
            } else {
                assert(components_forward(d, s, false) == seq![SpecComponent::CurDir]
                    + components_forward(d, b, true));
                assert(components_forward(d, a, false) == seq![SpecComponent::CurDir]);
            }
        } else if is_parent_dir_tok(a) {
            assert(components_forward(d, s, prog) == seq![SpecComponent::ParentDir]
                + components_forward(d, b, true));
            assert(components_forward(d, a, prog) == seq![SpecComponent::ParentDir]);
        } else if a.len() == 0 {
            assert(spec_split_first_component(d, s, true) == (
                None::<SpecComponent>,
                Some(b),
            ));
            assert(components_forward(d, s, true) == components_forward(d, b, true));
            assert(components_forward(d, a, true) + components_forward(d, b, true)
                =~= components_forward(d, b, true));
        } else {
            assert(components_forward(d, s, prog) == seq![SpecComponent::Normal(a)]
                + components_forward(d, b, true));
            assert(components_forward(d, a, prog) == seq![SpecComponent::Normal(a)]);
        }
    } else {
        // The first token of `s` is the first token of `a`, and what
        // follows it in `s` is what follows it in `a`, then the
        // separator, then `b`.
        assert(forall|j: int| 0 <= j < ka ==> s[j] == a[j]);
        assert(s[ka] == a[ka]);
        lemma_find_is_first(d, s, ka);
        let tok = s.subrange(0, ka);
        let rest = s.subrange(ka + 1, s.len() as int);
        let resta = a.subrange(ka + 1, a.len() as int);
        assert(tok =~= a.subrange(0, ka));
        assert(rest =~= resta + seq![c] + b);
        lemma_components_append(d, resta, b, c, true);
        if is_cur_dir_tok(tok) {
            if prog {
                assert(spec_split_first_component(d, s, true) == spec_split_first_component(
                    d,
                    resta + seq![c] + b,
                    true,
                ));
                lemma_components_match_eq(d, s, resta + seq![c] + b, true);
                assert(spec_split_first_component(d, a, true) == spec_split_first_component(
                    d,
                    resta,
                    true,
                ));
                lemma_components_match_eq(d, a, resta, true);
            } else {
                assert(components_forward(d, s, false) == seq![SpecComponent::CurDir]
                    + components_forward(d, resta + seq![c] + b, true));
                assert(components_forward(d, a, false) == seq![SpecComponent::CurDir]
                    + components_forward(d, resta, true));
                assert(seq![SpecComponent::CurDir] + (components_forward(d, resta, true)
                    + components_forward(d, b, true)) =~= (seq![SpecComponent::CurDir]
                    + components_forward(d, resta, true)) + components_forward(d, b, true));
            }
        } else if is_parent_dir_tok(tok) {
            assert(seq![SpecComponent::ParentDir] + (components_forward(d, resta, true)
                + components_forward(d, b, true)) =~= (seq![SpecComponent::ParentDir]
                + components_forward(d, resta, true)) + components_forward(d, b, true));
        } else if tok.len() == 0 {
            if prog {
                assert(components_forward(d, s, true) == components_forward(
                    d,
                    resta + seq![c] + b,
                    true,
                ));
                assert(components_forward(d, a, true) == components_forward(d, resta, true));
            } else {
                assert(seq![SpecComponent::Root] + (components_forward(d, resta, true)
                    + components_forward(d, b, true)) =~= (seq![SpecComponent::Root]
                    + components_forward(d, resta, true)) + components_forward(d, b, true));
            }
        } else {
            assert(seq![SpecComponent::Normal(tok)] + (components_forward(d, resta, true)
                + components_forward(d, b, true)) =~= (seq![SpecComponent::Normal(tok)]
                + components_forward(d, resta, true)) + components_forward(d, b, true));
        }
    }
}

/// The forward components of a single separator-free token, read as if
/// something had already been emitted: a parent-directory token is real,
/// a current-directory token and an empty token are noise, anything else
/// is a normal component.
proof fn lemma_forward_token(d: Dialect, t: Seq<char>)
    requires
        forall|j: int| 0 <= j < t.len() ==> !is_separator(d, t[j]),
    ensures
        components_forward(d, t, true) == if is_parent_dir_tok(t) {
            seq![SpecComponent::ParentDir]
        } else if is_cur_dir_tok(t) || t.len() == 0 {
            Seq::<SpecComponent>::empty()
        } else {
            seq![SpecComponent::Normal(t)]
        },
{
    lemma_find_is_first(d, t, t.len() as int);
    assert(t.subrange(0, t.len() as int) =~= t);
}

/// Two texts on which one backward extraction step agrees have the same
/// backward components.
proof fn lemma_backward_match_eq(d: Dialect, s1: Seq<char>, s2: Seq<char>)
    requires
        spec_split_last_component(d, s1) == spec_split_last_component(d, s2),
    ensures
        components_backward(d, s1) == components_backward(d, s2),
{
    match spec_split_last_component(d, s1) {
        (Some(rest), Some(c)) => {},
        (None, Some(c)) => {},
        (_, None) => {},
    }
}

/// Backward extraction agrees with forward extraction on every path: the
/// components found from the back, read in forward order, are exactly
/// the real components found from the front.
pub proof fn lemma_backward_matches_forward(d: Dialect, s: Seq<char>)
    ensures
        components_backward(d, s) == components_forward(d, s, false),
    decreases s.len(),
{
    lemma_rfind_sep_from(d, s, s.len() - 1);
    let k = rfind_sep_from(d, s, s.len() - 1);
    if k < 0 {
        // No separator: `s` is a single token in the leading position.
        lemma_find_is_first(d, s, s.len() as int);
        assert(s.subrange(0, s.len() as int) =~= s);
        assert(components_backward(d, Seq::<char>::empty()) == Seq::<SpecComponent>::empty());
        if is_cur_dir_tok(s) {
            assert(components_backward(d, s) =~= seq![SpecComponent::CurDir]);
        } else if is_parent_dir_tok(s) {
            assert(components_backward(d, s) =~= seq![SpecComponent::ParentDir]);
        } else if s.len() == 0 {
        } else {
            assert(components_backward(d, s) =~= seq![SpecComponent::Normal(s)]);
        }
    } else {
        let p = s.subrange(0, k);
        let sep = s.subrange(k, k + 1);
        let t = s.subrange(k + 1, s.len() as int);
        let cs = s[k];
        assert(s =~= p + seq![cs] + t);
        assert(forall|j: int| 0 <= j < t.len() ==> t[j] == s[k + 1 + j] && !is_separator(d, t[j]));
        lemma_forward_token(d, t);
        if p.len() == 0 {
            // The separator is the leading character: the path is a root
            // marker followed by one token.
            assert(k == 0);
            assert(sep =~= seq![cs]);
            assert(components_backward(d, Seq::<char>::empty()) == Seq::<SpecComponent>::empty());
            lemma_components_of_single_separator(d, cs);
            assert(spec_split_first_component(d, s, false) == (
                Some(SpecComponent::Root),
                Some(t),
            )) by {
                lemma_find_is_first(d, s, 0);
                assert(s.subrange(0, 0) =~= Seq::<char>::empty());
                assert(s.subrange(1, s.len() as int) =~= t);
            }
            assert(components_forward(d, s, false) == seq![SpecComponent::Root]
                + components_forward(d, t, true));
            if is_cur_dir_tok(t) {
                // The backward scan resolves `/.` to the root alone.
                assert(components_backward(d, s) =~= seq![SpecComponent::Root]);
                assert(seq![SpecComponent::Root] + Seq::<SpecComponent>::empty()
                    =~= seq![SpecComponent::Root]);
            } else if is_parent_dir_tok(t) {
                assert(components_backward(d, s) == components_backward(d, seq![cs])
                    + seq![SpecComponent::ParentDir]);
                assert(seq![SpecComponent::Root] + seq![SpecComponent::ParentDir]
                    =~= seq![SpecComponent::Root, SpecComponent::ParentDir]);
                assert(components_backward(d, seq![cs]) + seq![SpecComponent::ParentDir]
                    =~= seq![SpecComponent::Root, SpecComponent::ParentDir]);
            } else if t.len() == 0 {
                // A lone separator: the root alone, both ways.
                assert(components_backward(d, s) =~= seq![SpecComponent::Root]);
                assert(seq![SpecComponent::Root] + Seq::<SpecComponent>::empty()
                    =~= seq![SpecComponent::Root]);
            } else {
                assert(components_backward(d, s) == components_backward(d, seq![cs])
                    + seq![SpecComponent::Normal(t)]);
                assert(components_backward(d, seq![cs]) + seq![SpecComponent::Normal(t)]
                    =~= seq![SpecComponent::Root, SpecComponent::Normal(t)]);
                assert(seq![SpecComponent::Root] + seq![SpecComponent::Normal(t)]
                    =~= seq![SpecComponent::Root, SpecComponent::Normal(t)]);
            }
        } else {
            lemma_components_append(d, p, t, cs, false);
            lemma_backward_matches_forward(d, p);
            if is_cur_dir_tok(t) {
                assert(spec_split_last_component(d, s) == spec_split_last_component(d, p));
                lemma_backward_match_eq(d, s, p);
                assert(components_forward(d, p, false) + Seq::<SpecComponent>::empty()
                    =~= components_forward(d, p, false));
            } else if is_parent_dir_tok(t) {
                assert(components_backward(d, s) == components_backward(d, p)
                    + seq![SpecComponent::ParentDir]);
            } else if t.len() == 0 {
                assert(spec_split_last_component(d, s) == spec_split_last_component(d, p));
                lemma_backward_match_eq(d, s, p);
                assert(components_forward(d, p, false) + Seq::<SpecComponent>::empty()
                    =~= components_forward(d, p, false));
            } else {
                assert(components_backward(d, s) == components_backward(d, p)
                    + seq![SpecComponent::Normal(t)]);
            }
        }
    }
}

/// A path of one separator character has the root as its only component,
/// backward as well as forward.
proof fn lemma_components_of_single_separator(d: Dialect, cs: char)
    requires
        is_separator(d, cs),
    ensures
        components_backward(d, seq![cs]) == seq![SpecComponent::Root],
        components_forward(d, seq![cs], false) == seq![SpecComponent::Root],
{
    let s = seq![cs];
    assert(rfind_sep_from(d, s, 0) == 0);
    assert(s.subrange(0, 0) =~= Seq::<char>::empty());
    assert(s.subrange(1, 1) =~= Seq::<char>::empty());
    assert(spec_split_last_component(d, s) == (
        None::<Seq<char>>,
        Some(SpecComponent::Root),
    ));
    assert(components_backward(d, s) =~= seq![SpecComponent::Root]);
    lemma_find_is_first(d, s, 0);
    assert(spec_split_first_component(d, s, false) == (
        Some(SpecComponent::Root),
        Some(Seq::<char>::empty()),
    ));
    assert(components_forward(d, Seq::<char>::empty(), true) =~= Seq::<SpecComponent>::empty());
    assert(components_forward(d, s, false) =~= seq![SpecComponent::Root]);
}

/// On a path whose forward traversal runs to the end, the components the
/// traversal collects are exactly the real components of the path.
pub proof fn lemma_collected_complete(d: Dialect, s: Seq<char>, prog: bool)
    requires
        forward_complete(d, s, prog),
    ensures
        components_collected(d, s, prog) == components_forward(d, s, prog),
    decreases s.len(),
{
    crate::pure::lemma_split_first_component_shrinks(d, s, prog);
    match spec_split_first_component(d, s, prog) {
        (Some(c), Some(rest)) => {
            lemma_collected_complete(d, rest, true);
        },
        (Some(c), None) => {},
        (None, Some(rest)) => {
            assert(components_collected(d, s, prog) =~= components_forward(d, rest, true));
        },
        (None, None) => {},
    }
}

/// Bidirectional consistency: on a path whose forward traversal runs to
/// the end, collecting the components forward yields the same sequence
/// as collecting them backward and reversing — the backward collection
/// read in forward order. A path with real components behind a collapsed
/// separator, where the forward traversal pauses, is left out.
pub proof fn lemma_components_bidirectional(d: Dialect, s: Seq<char>)
    requires
        forward_complete(d, s, false),
    ensures
        components_collected(d, s, false) == components_backward(d, s),
{
    lemma_collected_complete(d, s, false);
    lemma_backward_matches_forward(d, s);
}

/// Two texts on which one projected backward step agrees have the same
/// parent and file name.
proof fn lemma_split_last_match_eq(d: Dialect, s1: Seq<char>, s2: Seq<char>)
    requires
        spec_split_last(d, s1) == spec_split_last(d, s2),
    ensures
        spec_parent(d, s1) == spec_parent(d, s2),
        spec_file_name(d, s1) == spec_file_name(d, s2),
{
}

/// The parent and the file name of a path are functions of its real
/// components alone: the file name is the text of the last component
/// when that component is a normal segment and absent otherwise, and the
/// parent is a path holding all components but the last, absent exactly
/// when the path has no components or only the root.
pub proof fn lemma_split_last_matches_components(d: Dialect, s: Seq<char>)
    ensures
        ({
            let m = components_forward(d, s, false);
            (match spec_file_name(d, s) {
                Some(t) => m.len() > 0 && m.last() == SpecComponent::Normal(t),
                None => m.len() == 0 || !(m.last() is Normal),
            }) && (match spec_parent(d, s) {
                Some(r) => m.len() > 0 && m != seq![SpecComponent::Root] && components_forward(
                    d,
                    r,
                    false,
                ) == m.drop_last(),
                None => m.len() == 0 || m == seq![SpecComponent::Root],
            })
        }),
    decreases s.len(),
{
    let m = components_forward(d, s, false);
    lemma_rfind_sep_from(d, s, s.len() - 1);
    let k = rfind_sep_from(d, s, s.len() - 1);
    assert(components_forward(d, Seq::<char>::empty(), false) == Seq::<SpecComponent>::empty());
    if k < 0 {
        // No separator: `s` is a single token in the leading position.
        lemma_find_is_first(d, s, s.len() as int);
        assert(s.subrange(0, s.len() as int) =~= s);
        if is_cur_dir_tok(s) {
            assert(m == seq![SpecComponent::CurDir]);
            assert(m.drop_last() =~= Seq::<SpecComponent>::empty());
        } else if is_parent_dir_tok(s) {
            assert(m == seq![SpecComponent::ParentDir]);
            assert(m.drop_last() =~= Seq::<SpecComponent>::empty());
        } else if s.len() == 0 {
        } else {
            assert(m == seq![SpecComponent::Normal(s)]);
            assert(m.drop_last() =~= Seq::<SpecComponent>::empty());
        }
    } else {
        let p = s.subrange(0, k);
        let sep = s.subrange(k, k + 1);
        let t = s.subrange(k + 1, s.len() as int);
        let cs = s[k];
        assert(s =~= p + seq![cs] + t);
        assert(forall|j: int| 0 <= j < t.len() ==> t[j] == s[k + 1 + j] && !is_separator(d, t[j]));
        lemma_forward_token(d, t);
        if p.len() == 0 {
            // The separator is the leading character: the path is a root
            // marker followed by one token.
            assert(k == 0);
            assert(sep =~= seq![cs]);
            lemma_components_of_single_separator(d, cs);
            assert(spec_split_first_component(d, s, false) == (
                Some(SpecComponent::Root),
                Some(t),
            )) by {
                lemma_find_is_first(d, s, 0);
                assert(s.subrange(0, 0) =~= Seq::<char>::empty());
                assert(s.subrange(1, s.len() as int) =~= t);
            }
            assert(m == seq![SpecComponent::Root] + components_forward(d, t, true));
            if is_cur_dir_tok(t) {
                // `spec_split_last` strips the `.` and consumes the rest.
                assert(spec_split_last(d, s) == spec_split_last(d, Seq::<char>::empty()));
                assert(m =~= seq![SpecComponent::Root]);
            } else if is_parent_dir_tok(t) {
                assert(m =~= seq![SpecComponent::Root, SpecComponent::ParentDir]);
                assert(spec_parent(d, s) == Some(seq![cs]));
                assert(m.drop_last() =~= seq![SpecComponent::Root]);
            } else if t.len() == 0 {
                assert(m =~= seq![SpecComponent::Root]);
            } else {
                assert(m =~= seq![SpecComponent::Root, SpecComponent::Normal(t)]);
                assert(spec_file_name(d, s) == Some(t));
                assert(spec_parent(d, s) == Some(seq![cs]));
                assert(m.drop_last() =~= seq![SpecComponent::Root]);
            }
        } else {
            lemma_components_append(d, p, t, cs, false);
            lemma_split_last_matches_components(d, p);
            let mp = components_forward(d, p, false);
            if is_cur_dir_tok(t) {
                assert(spec_split_last(d, s) == spec_split_last(d, p));
                lemma_split_last_match_eq(d, s, p);
                assert(mp + Seq::<SpecComponent>::empty() =~= mp);
            } else if is_parent_dir_tok(t) {
                assert(spec_split_last(d, s) == (Some(p), None::<Seq<char>>));
                assert(m == mp + seq![SpecComponent::ParentDir]);
                assert(m.last() == SpecComponent::ParentDir);
                assert(m != seq![SpecComponent::Root]);
                assert(m.drop_last() =~= mp);
            } else if t.len() == 0 {
                assert(spec_split_last(d, s) == spec_split_last(d, p));
                lemma_split_last_match_eq(d, s, p);
                assert(mp + Seq::<SpecComponent>::empty() =~= mp);
            } else {
                assert(spec_split_last(d, s) == (Some(p), Some(t)));
                assert(m == mp + seq![SpecComponent::Normal(t)]);
                assert(m.last() == SpecComponent::Normal(t));
                assert(m != seq![SpecComponent::Root]);
                assert(m.drop_last() =~= mp);
            }
        }
    }
}

/// Doubling a separator anywhere except the very first position leaves
/// the real components of the path unchanged: the path around an
/// existing separator reads the same with a second separator beside it.
pub proof fn lemma_duplicate_separator(
    d: Dialect,
    a: Seq<char>,
    b: Seq<char>,
    c1: char,
    c2: char,
    prog: bool,
)
    requires
        is_separator(d, c1),
        is_separator(d, c2),
        prog || a.len() > 0,
    ensures
        components_forward(d, a + seq![c1] + seq![c2] + b, prog) == components_forward(
            d,
            a + seq![c1] + b,
            prog,
        ),
{
    assert(a + seq![c1] + seq![c2] + b =~= a + seq![c1] + (Seq::<char>::empty() + seq![c2] + b));
    lemma_components_append(d, a, Seq::<char>::empty() + seq![c2] + b, c1, prog);
    lemma_components_append(d, Seq::<char>::empty(), b, c2, true);
    lemma_components_append(d, a, b, c1, prog);
    assert(components_forward(d, Seq::<char>::empty(), true) == Seq::<SpecComponent>::empty());
    assert(components_forward(d, a, prog) + (Seq::<SpecComponent>::empty() + components_forward(
        d,
        b,
        true,
    )) =~= components_forward(d, a, prog) + components_forward(d, b, true));
}

/// Inserting an extra `.` token between separators anywhere except the
/// very first position leaves the real components of the path
/// unchanged.
pub proof fn lemma_interior_cur_dir(
    d: Dialect,
    a: Seq<char>,
    b: Seq<char>,
    c1: char,
    c2: char,
    prog: bool,
)
    requires
        is_separator(d, c1),
        is_separator(d, c2),
        prog || a.len() > 0,
    ensures
        components_forward(d, a + seq![c1] + seq!['.'] + seq![c2] + b, prog) == components_forward(
            d,
            a + seq![c1] + b,
            prog,
        ),
{
    assert(a + seq![c1] + seq!['.'] + seq![c2] + b =~= a + seq![c1] + (seq!['.'] + seq![c2] + b));
    lemma_components_append(d, a, seq!['.'] + seq![c2] + b, c1, prog);
    lemma_components_append(d, seq!['.'], b, c2, true);
    lemma_components_append(d, a, b, c1, prog);
    assert(is_cur_dir_tok(seq!['.']));
    assert(forall|j: int| 0 <= j < 1 ==> !is_separator(d, seq!['.'][j]) || is_separator(
        d,
        seq!['.'][j],
    ));
    lemma_find_sep_from(d, seq!['.'], 0);
    if is_separator(d, '.') {
        // A dialect whose separator is the dot itself never sees a `.`
        // token, and the insertion doubles a separator instead.
        assert(find_sep_from(d, seq!['.'], 0) == 0);
        assert(seq!['.'].subrange(0, 0) =~= Seq::<char>::empty());
        assert(seq!['.'].subrange(1, 1) =~= Seq::<char>::empty());
        assert(spec_split_first_component(d, seq!['.'], true) == (
            None::<SpecComponent>,
            Some(Seq::<char>::empty()),
        ));
        assert(components_forward(d, Seq::<char>::empty(), true)
            == Seq::<SpecComponent>::empty());
        assert(components_forward(d, seq!['.'], true) == Seq::<SpecComponent>::empty());
    } else {
        lemma_find_is_first(d, seq!['.'], 1);
        assert(seq!['.'].subrange(0, 1) =~= seq!['.']);
        assert(components_forward(d, seq!['.'], true) == Seq::<SpecComponent>::empty());
    }
    assert(components_forward(d, a, prog) + (Seq::<SpecComponent>::empty() + components_forward(
        d,
        b,
        true,
    )) =~= components_forward(d, a, prog) + components_forward(d, b, true));
}

/// Two paths with the same real components have the same file name, and
/// parents with the same real components: `parent` and `file_name` see
/// through interior noise entirely.
pub proof fn lemma_split_last_depends_on_components(d: Dialect, s1: Seq<char>, s2: Seq<char>)
    requires
        components_forward(d, s1, false) == components_forward(d, s2, false),
    ensures
        spec_file_name(d, s1) == spec_file_name(d, s2),
        match (spec_parent(d, s1), spec_parent(d, s2)) {
            (Some(r1), Some(r2)) => components_forward(d, r1, false) == components_forward(
                d,
                r2,
                false,
            ),
            (None, None) => true,
            _ => false,
        },
{
    lemma_split_last_matches_components(d, s1);
    lemma_split_last_matches_components(d, s2);
    let m = components_forward(d, s1, false);
    match (spec_file_name(d, s1), spec_file_name(d, s2)) {
        (Some(t1), Some(t2)) => {
            assert(SpecComponent::Normal(t1) == SpecComponent::Normal(t2));
        },
        _ => {},
    }
}

/// `parent` and `file_name` are blind to lexical noise: doubling a
/// separator, or inserting an extra `.` token, anywhere except the very
/// first position, changes neither the file name nor the real
/// components of the parent.
pub proof fn lemma_split_last_ignores_noise(
    d: Dialect,
    a: Seq<char>,
    b: Seq<char>,
    c1: char,
    c2: char,
)
    requires
        is_separator(d, c1),
        is_separator(d, c2),
        a.len() > 0,
    ensures
        spec_file_name(d, a + seq![c1] + seq![c2] + b) == spec_file_name(d, a + seq![c1] + b),
        spec_file_name(d, a + seq![c1] + seq!['.'] + seq![c2] + b) == spec_file_name(
            d,
            a + seq![c1] + b,
        ),
        match (spec_parent(d, a + seq![c1] + seq![c2] + b), spec_parent(d, a + seq![c1] + b)) {
            (Some(r1), Some(r2)) => components_forward(d, r1, false) == components_forward(
                d,
                r2,
                false,
            ),
            (None, None) => true,
            _ => false,
        },
        match (spec_parent(d, a + seq![c1] + seq!['.'] + seq![c2] + b), spec_parent(
            d,
            a + seq![c1] + b,
        )) {
            (Some(r1), Some(r2)) => components_forward(d, r1, false) == components_forward(
                d,
                r2,
                false,
            ),
            (None, None) => true,
            _ => false,
        },
{
    lemma_duplicate_separator(d, a, b, c1, c2, false);
    lemma_interior_cur_dir(d, a, b, c1, c2, false);
    lemma_split_last_depends_on_components(d, a + seq![c1] + seq![c2] + b, a + seq![c1] + b);
    lemma_split_last_depends_on_components(
        d,
        a + seq![c1] + seq!['.'] + seq![c2] + b,
        a + seq![c1] + b,
    );
}

/// A path is absolute exactly when its real components begin with the
/// root marker: the string-level test (a leading separator) and the
/// component-level one agree.
pub proof fn lemma_absolute_iff_root(d: Dialect, s: Seq<char>)
    ensures
        spec_is_absolute(d, s) <==> (components_forward(d, s, false).len() > 0
            && components_forward(d, s, false)[0] == SpecComponent::Root),
{
    let m = components_forward(d, s, false);
    if spec_is_absolute(d, s) {
        lemma_find_is_first(d, s, 0);
        assert(s.subrange(0, 0) =~= Seq::<char>::empty());
        assert(m == seq![SpecComponent::Root] + components_forward(
            d,
            s.subrange(1, s.len() as int),
            true,
        ));
        assert(m[0] == SpecComponent::Root);
    } else if s.len() > 0 {
        lemma_find_sep_from(d, s, 0);
        let k = find_sep_from(d, s, 0);
        assert(k >= 1);
        let tok = s.subrange(0, k);
        assert(tok.len() > 0);
        if k == s.len() {
            if is_cur_dir_tok(tok) {
                assert(m == seq![SpecComponent::CurDir]);
            } else if is_parent_dir_tok(tok) {
                assert(m == seq![SpecComponent::ParentDir]);
            } else {
                assert(m == seq![SpecComponent::Normal(tok)]);
            }
        } else {
            let rest = components_forward(d, s.subrange(k + 1, s.len() as int), true);
            if is_cur_dir_tok(tok) {
                assert(m == seq![SpecComponent::CurDir] + rest);
            } else if is_parent_dir_tok(tok) {
                assert(m == seq![SpecComponent::ParentDir] + rest);
            } else {
                assert(m == seq![SpecComponent::Normal(tok)] + rest);
            }
        }
        assert(m.len() > 0 ==> m[0] != SpecComponent::Root);
    }
}

/// Replacing a path's non-empty extension with itself gives the path
/// back, for a path that is exactly its own file name. A path with a
/// directory part is reduced to its file name by `with_extension`, so
/// the round trip holds of the file-name part alone.
pub proof fn lemma_with_extension_round_trip(d: Dialect, s: Seq<char>, e: Seq<char>)
    requires
        spec_extension(d, s) == Some(e),
        e.len() > 0,
        spec_file_name(d, s) == Some(s),
    ensures
        spec_with_extension(d, s, e) == s,
{
    let j = crate::pure::rfind_char_from(d.extension_separator, s, s.len() - 1);
    crate::pure::lemma_rfind_char_from(d.extension_separator, s, s.len() - 1);
    assert(j > 0);
    assert(s[j] == d.extension_separator);
    let stem = s.subrange(0, j);
    assert(spec_with_extension(d, s, e) == stem.push(d.extension_separator) + s.subrange(
        j + 1,
        s.len() as int,
    ));
    assert(stem.push(d.extension_separator) + s.subrange(j + 1, s.len() as int) =~= s);
}

/// Two texts on which one extraction step agrees have the same forward
/// components.
proof fn lemma_components_match_eq(d: Dialect, s1: Seq<char>, s2: Seq<char>, prog: bool)
    requires
        spec_split_first_component(d, s1, prog) == spec_split_first_component(d, s2, prog),
    ensures
        components_forward(d, s1, prog) == components_forward(d, s2, prog),
{
    match spec_split_first_component(d, s1, prog) {
        (Some(c), Some(rest)) => {},
        (Some(c), None) => {},
        (None, Some(rest)) => {},
        (None, None) => {},
    }
}

} // verus!
