//! A dialect-agnostic path held as a sequence of components.

use crate::comp::Component;
use crate::comp::SpecComponent;
use crate::nt::WindowsPath;
use crate::posix::PurePosixPath;
use crate::pure::components_collected;
use crate::pure::ParsablePath;
use crate::pure::PurePath;
use vstd::prelude::*;

verus! {

/// The views of a sequence of components.
pub open spec fn views_of_components(cs: Seq<Component<'_>>) -> Seq<SpecComponent> {
    cs.map_values(|c: Component<'_>| c@)
}

/// A dialect-agnostic path: an ordered sequence of components, with no
/// separator convention of its own. It lets paths of different dialects
/// be compared and combined component by component.
#[derive(Debug, Clone)]
pub struct UnifiedPath<'a> {
    components: Vec<Component<'a>>,
}

impl<'a> UnifiedPath<'a> {
    /// The components of the path, as their mathematical views.
    pub closed spec fn spec_components(&self) -> Seq<SpecComponent> {
        views_of_components(self.components@)
    }

    /// A path made of the given components, in order.
    pub fn from_iter(components: Vec<Component<'a>>) -> (r: Self)
        ensures
            r.spec_components() == views_of_components(components@),
    {
        Self { components }
    }

    /// The components of the path, in order.
    pub fn components(&self) -> (r: &[Component<'a>])
        ensures
            views_of_components(r@) == self.spec_components(),
    {
        self.components.as_slice()
    }

    /// The path without its last component, or `None` when the path has
    /// no components.
    pub fn parent(&self) -> (r: Option<Self>)
        ensures
            match r {
                Some(p) => self.spec_components().len() > 0 && p.spec_components()
                    == self.spec_components().drop_last(),
                None => self.spec_components().len() == 0,
            },
    {
        let n = self.components.len();
        if n == 0 {
            return None;
        }
        let mut rest: Vec<Component<'a>> = Vec::new();
        let mut i: usize = 0;
        while i < n - 1
            invariant
                0 <= i <= n - 1,
                n == self.components@.len(),
                rest@ == self.components@.subrange(0, i as int),
            decreases n - 1 - i,
        {
            let c = self.components[i];
            rest.push(c);
            proof {
                assert(rest@ =~= self.components@.subrange(0, i + 1));
            }
            i = i + 1;
        }
        proof {
            assert(views_of_components(self.components@.subrange(0, n - 1))
                =~= views_of_components(self.components@).drop_last());
        }
        Some(Self { components: rest })
    }

    /// The text of the last component when it is a normal segment, and
    /// `None` for an empty path or any other last component.
    pub fn file_name(&self) -> (r: Option<&'a str>)
        ensures
            match r {
                Some(t) => self.spec_components().len() > 0 && self.spec_components().last()
                    == SpecComponent::Normal(t@),
                None => self.spec_components().len() == 0 || !(self.spec_components().last()
                    is Normal),
            },
    {
        let n = self.components.len();
        if n == 0 {
            return None;
        }
        self.components[n - 1].as_file_name()
    }

    /// Whether the path is absolute: its first component is the root.
    pub fn is_absolute(&self) -> (r: bool)
        ensures
            r == (self.spec_components().len() > 0 && self.spec_components()[0]
                == SpecComponent::Root),
    {
        if self.components.len() == 0 {
            return false;
        }
        match self.components[0] {
            Component::Root => true,
            _ => false,
        }
    }

    /// Whether the path is relative: the negation of `is_absolute`.
    pub fn is_relative(&self) -> (r: bool)
        ensures
            r == !(self.spec_components().len() > 0 && self.spec_components()[0]
                == SpecComponent::Root),
    {
        !self.is_absolute()
    }

    /// Joins the given path onto this one in place: this path's
    /// components are replaced by the given path's when it is absolute,
    /// and the given path's components are appended otherwise.
    pub fn join_in_place(&mut self, path: &Self)
        ensures
            final(self).spec_components() == if path.spec_components().len() > 0
                && path.spec_components()[0] == SpecComponent::Root {
                path.spec_components()
            } else {
                old(self).spec_components() + path.spec_components()
            },
    {
        if path.is_absolute() {
            self.components = Vec::new();
        }
        let ghost base = self.components@;
        let n = path.components.len();
        let mut i: usize = 0;
        while i < n
            invariant
                0 <= i <= n == path.components@.len(),
                self.components@ == base + path.components@.subrange(0, i as int),
            decreases n - i,
        {
            let c = path.components[i];
            self.components.push(c);
            proof {
                assert(base + path.components@.subrange(0, i as int).push(
                    path.components@[i as int],
                ) =~= base + path.components@.subrange(0, i + 1));
            }
            i = i + 1;
        }
        proof {
            assert(self.components@ =~= base + path.components@);
            assert(views_of_components(base + path.components@) =~= views_of_components(base)
                + views_of_components(path.components@));
            if path.spec_components().len() > 0 && path.spec_components()[0]
                == SpecComponent::Root {
                assert(views_of_components(Seq::<Component<'a>>::empty())
                    =~= Seq::<SpecComponent>::empty());
                assert(Seq::<SpecComponent>::empty() + views_of_components(path.components@)
                    =~= views_of_components(path.components@));
            }
        }
    }

    /// The join of this path and the given one: the given path alone
    /// when it is absolute, and this path's components followed by the
    /// given path's otherwise.
    pub fn join(&self, path: &Self) -> (r: Self)
        ensures
            r.spec_components() == if path.spec_components().len() > 0 && path.spec_components()[0]
                == SpecComponent::Root {
                path.spec_components()
            } else {
                self.spec_components() + path.spec_components()
            },
    {
        let mut new = Self { components: copy_components(&self.components) };
        new.join_in_place(path);
        new
    }
}

/// A copy of a component vector.
fn copy_components<'a>(v: &Vec<Component<'a>>) -> (r: Vec<Component<'a>>)
    ensures
        r@ == v@,
{
    let n = v.len();
    let mut r: Vec<Component<'a>> = Vec::new();
    let mut i: usize = 0;
    while i < n
        invariant
            0 <= i <= n == v@.len(),
            r@ == v@.subrange(0, i as int),
        decreases n - i,
    {
        let c = v[i];
        r.push(c);
        proof {
            assert(v@.subrange(0, i as int).push(v@[i as int]) =~= v@.subrange(0, i + 1));
        }
        i = i + 1;
    }
    proof {
        assert(v@.subrange(0, n as int) =~= v@);
    }
    r
}

/// The components of the given path, collected by a forward traversal of
/// a fresh cursor.
fn collect_components<'a, P: PurePath>(path: &'a P) -> (r: Vec<Component<'a>>)
    ensures
        views_of_components(r@) == components_collected(P::spec_dialect(), path.text(), false),
{
    let mut it = path.components();
    let mut v: Vec<Component<'a>> = Vec::new();
    loop
        invariant
            views_of_components(v@) + components_collected(
                P::spec_dialect(),
                it.remaining(),
                it.front_progressed(),
            ) == components_collected(P::spec_dialect(), path.text(), false),
        decreases it.remaining().len() + (if it.front_progressed() {
            0int
        } else {
            1int
        }),
    {
        proof {
            crate::pure::lemma_split_first_component_shrinks(
                P::spec_dialect(),
                it.remaining(),
                it.front_progressed(),
            );
        }
        match it.next() {
            Some(c) => {
                v.push(c);
                proof {
                    assert(views_of_components(v@) =~= views_of_components(v@.drop_last()).push(
                        c@,
                    ));
                }
            },
            None => {
                proof {
                    assert(views_of_components(v@) + Seq::<SpecComponent>::empty()
                        =~= views_of_components(v@));
                }
                return v;
            },
        }
    }
}

impl<'a> From<&'a PurePosixPath> for UnifiedPath<'a> {
    /// The components of the given Posix path, as a unified path.
    fn from(path: &'a PurePosixPath) -> (r: Self)
        ensures
            r.spec_components() == components_collected(
                PurePosixPath::spec_dialect(),
                path.text(),
                false,
            ),
    {
        UnifiedPath { components: collect_components(path) }
    }
}

impl<'a> vstd::std_specs::convert::FromSpecImpl<&'a PurePosixPath> for UnifiedPath<'a> {
    open spec fn obeys_from_spec() -> bool {
        false
    }

    open spec fn from_spec(path: &'a PurePosixPath) -> Self {
        arbitrary()
    }
}

impl<'a> From<&'a WindowsPath> for UnifiedPath<'a> {
    /// The components of the given Windows path, as a unified path.
    fn from(path: &'a WindowsPath) -> (r: Self)
        ensures
            r.spec_components() == components_collected(
                WindowsPath::spec_dialect(),
                path.text(),
                false,
            ),
    {
        UnifiedPath { components: collect_components(path) }
    }
}

impl<'a> vstd::std_specs::convert::FromSpecImpl<&'a WindowsPath> for UnifiedPath<'a> {
    open spec fn obeys_from_spec() -> bool {
        false
    }

    open spec fn from_spec(path: &'a WindowsPath) -> Self {
        arbitrary()
    }
}

impl<'a> PartialEq for UnifiedPath<'a> {
    /// Two unified paths are equal when their component sequences are
    /// equal.
    fn eq(&self, other: &Self) -> (r: bool) {
        let n = self.components.len();
        if n != other.components.len() {
            proof {
                assert(self.spec_components().len() != other.spec_components().len());
            }
            return false;
        }
        let mut i: usize = 0;
        while i < n
            invariant
                0 <= i <= n == self.components@.len() == other.components@.len(),
                forall|j: int| 0 <= j < i ==> self.components@[j]@ == other.components@[j]@,
            decreases n - i,
        {
            if !(self.components[i] == other.components[i]) {
                proof {
                    assert(self.spec_components()[i as int] != other.spec_components()[i as int]);
                }
                return false;
            }
            i = i + 1;
        }
        proof {
            assert(self.spec_components() =~= other.spec_components());
        }
        true
    }
}

impl<'a> vstd::std_specs::cmp::PartialEqSpecImpl for UnifiedPath<'a> {
    open spec fn obeys_eq_spec() -> bool {
        true
    }

    open spec fn eq_spec(&self, other: &Self) -> bool {
        self.spec_components() == other.spec_components()
    }
}

} // verus!
