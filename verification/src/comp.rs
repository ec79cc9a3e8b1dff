//! Path components and the bidirectional component iterator.

use crate::pure::empty_str;
use crate::pure::spec_split_first_component;
use crate::pure::spec_split_last_component;
use crate::pure::split_first_component;
use crate::pure::split_last_component;
use crate::pure::ParsablePath;
use core::marker::PhantomData;
use vstd::prelude::*;
use vstd::string::StrSliceExecFns;

verus! {

/// The mathematical form of a path component: the payload of a prefix or
/// normal component is its text as a sequence of characters.
pub ghost enum SpecComponent {
    /// A drive or UNC-style prefix.
    Prefix(Seq<char>),
    /// The path-root marker.
    Root,
    /// A lexically significant current-directory token.
    CurDir,
    /// A parent-directory token.
    ParentDir,
    /// An ordinary path segment.
    Normal(Seq<char>),
}

/// A path component: one classified unit of a path between separators.
/// The text of a prefix or normal component borrows from the path it was
/// split from.
///
/// Components are totally ordered, by kind in declaration order and then
/// by text, for use in ordered containers.
#[derive(Debug, Clone, Copy, PartialOrd, Ord)]
pub enum Component<'a> {
    /// A drive or UNC-style prefix (dialect-specific; the Posix dialect
    /// never produces one).
    Prefix(&'a str),
    /// The path-root marker.
    Root,
    /// A current-directory token that is semantically significant (only
    /// the leading one is).
    CurDir,
    /// A parent-directory token.
    ParentDir,
    /// An ordinary path segment.
    Normal(&'a str),
}

impl<'a> View for Component<'a> {
    type V = SpecComponent;

    open spec fn view(&self) -> SpecComponent {
        match *self {
            Component::Prefix(s) => SpecComponent::Prefix(s@),
            Component::Root => SpecComponent::Root,
            Component::CurDir => SpecComponent::CurDir,
            Component::ParentDir => SpecComponent::ParentDir,
            Component::Normal(s) => SpecComponent::Normal(s@),
        }
    }
}

impl<'a> Component<'a> {
    /// The component's text when it is a normal segment, and `None` for
    /// every other kind of component.
    pub fn as_file_name(&self) -> (r: Option<&'a str>)
        ensures
            match r {
                Some(t) => self@ == SpecComponent::Normal(t@),
                None => !(self@ is Normal),
            },
    {
        match self {
            Component::Normal(s) => Some(s),
            _ => None,
        }
    }
}

/// Whether two pieces of text hold the same characters.
pub(crate) fn str_eq(a: &str, b: &str) -> (r: bool)
    ensures
        r == (a@ == b@),
{
    let n = a.unicode_len();
    if n != b.unicode_len() {
        return false;
    }
    let mut i: usize = 0;
    while i < n
        invariant
            0 <= i <= n == a@.len() == b@.len(),
            forall|j: int| 0 <= j < i ==> a@[j] == b@[j],
        decreases n - i,
    {
        if a.get_char(i) != b.get_char(i) {
            return false;
        }
        i = i + 1;
    }
    proof {
        assert(a@ =~= b@);
    }
    true
}

impl<'a> PartialEq for Component<'a> {
    /// Two components are equal when their kinds are equal and the texts
    /// they carry are equal.
    fn eq(&self, other: &Self) -> (r: bool) {
        match (self, other) {
            (Component::Prefix(a), Component::Prefix(b)) => str_eq(a, b),
            (Component::Root, Component::Root) => true,
            (Component::CurDir, Component::CurDir) => true,
            (Component::ParentDir, Component::ParentDir) => true,
            (Component::Normal(a), Component::Normal(b)) => str_eq(a, b),
            _ => false,
        }
    }
}

impl<'a> vstd::std_specs::cmp::PartialEqSpecImpl for Component<'a> {
    open spec fn obeys_eq_spec() -> bool {
        true
    }

    open spec fn eq_spec(&self, other: &Self) -> bool {
        self@ == other@
    }
}

impl<'a> Eq for Component<'a> {

}

/// A bidirectional cursor over the components of a path, for the dialect
/// named by `P`.
///
/// The forward and the backward cursor share one shrinking slice of the
/// path. Each cursor records whether it has taken a step yet: for the
/// forward cursor this decides whether a `.` token is the leading one and
/// a real component.
pub struct Components<'a, P> {
    s: &'a str,
    p: PhantomData<P>,
    progressed_front: bool,
    progressed_back: bool,
}

impl<'a, P: ParsablePath> Components<'a, P> {
    /// The path text not yet consumed by either cursor.
    pub closed spec fn remaining(&self) -> Seq<char> {
        self.s@
    }

    /// Whether the forward cursor has taken a step.
    pub closed spec fn front_progressed(&self) -> bool {
        self.progressed_front
    }

    /// Whether the backward cursor has taken a step.
    pub closed spec fn back_progressed(&self) -> bool {
        self.progressed_back
    }

    /// A fresh cursor over the components of `s`.
    pub fn new(s: &'a str) -> (r: Self)
        ensures
            r.remaining() == s@,
            !r.front_progressed(),
            !r.back_progressed(),
    {
        Self { s, p: PhantomData, progressed_front: false, progressed_back: false }
    }

    /// The next component from the front, or `None` when the step emits
    /// nothing. The forward cursor counts as progressed from here on,
    /// whatever was emitted.
    pub fn next(&mut self) -> (r: Option<Component<'a>>)
        ensures
            ({
                let (c, rest) = spec_split_first_component(
                    P::spec_dialect(),
                    old(self).remaining(),
                    old(self).front_progressed(),
                );
                (match (r, c) {
                    (Some(x), Some(y)) => x@ == y,
                    (None, None) => true,
                    _ => false,
                }) && final(self).remaining() == (match rest {
                    Some(t) => t,
                    None => Seq::<char>::empty(),
                }) && final(self).front_progressed() && final(self).back_progressed() == old(
                    self,
                ).back_progressed()
            }),
    {
        let d = P::dialect();
        let (first, rest) = split_first_component(self.s, &d, self.progressed_front);
        self.progressed_front = true;
        self.s = match rest {
            Some(r) => r,
            None => empty_str(),
        };
        first
    }

    /// The next component from the back, or `None` when the path is
    /// fully consumed.
    pub fn next_back(&mut self) -> (r: Option<Component<'a>>)
        ensures
            ({
                let (rest, c) = spec_split_last_component(P::spec_dialect(), old(self).remaining());
                (match (r, c) {
                    (Some(x), Some(y)) => x@ == y,
                    (None, None) => true,
                    _ => false,
                }) && final(self).remaining() == (match rest {
                    Some(t) => t,
                    None => Seq::<char>::empty(),
                }) && final(self).back_progressed() && final(self).front_progressed() == old(
                    self,
                ).front_progressed()
            }),
    {
        let d = P::dialect();
        let (rest, last) = split_last_component(self.s, &d);
        self.progressed_back = true;
        self.s = match rest {
            Some(r) => r,
            None => empty_str(),
        };
        last
    }
}

} // verus!
