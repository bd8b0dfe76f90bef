//! Tracking of which parts of the DOM require re-rendering after an update.
use crate::Id;
use vstd::prelude::*;

verus! {

/// Allows the `update()` cycle of an application or component to signal the
/// runtime what portion of the DOM requires re-rendering.
///
/// Usually components return either `Updated::yes()` or `Updated::no()`.
/// A component with child components combines several `Updated` objects with
/// `Updated::merge()` or `Updated::combine()`.
#[derive(Debug)]
pub struct Updated {
    pub(crate) should_render: bool,
    pub(crate) components_render: Option<Vec<Id>>,
}

/// An `Updated` taken by its views: whether the whole DOM is to be rendered
/// again, and the components invalidated, if any were recorded.
pub struct UpdatedView {
    pub should_render: bool,
    pub components: Option<Seq<Id>>,
}

impl View for Updated {
    type V = UpdatedView;

    closed spec fn view(&self) -> UpdatedView {
        UpdatedView {
            should_render: self.should_render,
            components: match self.components_render {
                Some(v) => Some(v@),
                None => None,
            },
        }
    }
}

/// The view of an `Updated` in terms of its fields.
pub(crate) proof fn lemma_updated_view(u: &Updated)
    ensures
        u@.should_render == u.should_render,
        u@.components == (match u.components_render {
            Some(v) => Some(v@),
            None => None,
        }),
{
}

/// The result of merging `b` into `a`: a re-render of `b` makes `a` render
/// again (and the components of `b` are then dropped); otherwise the
/// components of `b` are appended to those of `a`.
pub open spec fn merged(a: UpdatedView, b: UpdatedView) -> UpdatedView {
    if b.should_render {
        UpdatedView { should_render: true, components: a.components }
    } else {
        match b.components {
            Some(bc) => match a.components {
                Some(ac) => UpdatedView { should_render: a.should_render, components: Some(ac + bc) },
                None => UpdatedView { should_render: a.should_render, components: Some(bc) },
            },
            None => a,
        }
    }
}

/// The view of `Updated::no()`.
pub open spec fn no_view() -> UpdatedView {
    UpdatedView { should_render: false, components: None }
}

impl Updated {
    /// Alias for `Updated::no()`: signals that no re-render is required.
    pub fn new() -> (res: Updated)
        ensures
            res@ == no_view(),
    {
        Updated { should_render: false, components_render: None }
    }

    /// Signals that a re-render is required.
    pub fn yes() -> (res: Updated)
        ensures
            res@ == (UpdatedView { should_render: true, components: None }),
    {
        Updated { should_render: true, components_render: None }
    }

    /// Signals that no re-render is required.
    pub fn no() -> (res: Updated)
        ensures
            res@ == no_view(),
    {
        Updated { should_render: false, components_render: None }
    }

    /// Marks the component with the given id as invalid, so that it is rendered again.
    pub fn invalidate(self, id: Id) -> (res: Updated)
        ensures
            res@.should_render == self@.should_render,
            res@.components == Some(
                match self@.components {
                    Some(c) => c.push(id),
                    None => seq![id],
                },
            ),
    {
        let mut s = self;
        match &mut s.components_render {
            Some(ids) => {
                ids.push(id);
            },
            None => {
                let mut ids: Vec<Id> = Vec::new();
                ids.push(id);
                assert(ids@ =~= seq![id]);
                s.components_render = Some(ids);
            },
        }
        s
    }

    /// Merges another `Updated` object into this one, combining the invalidated components.
    ///
    /// Equivalent to `Updated::combine(a, b)`.
    pub fn merge(&mut self, other: Updated)
        ensures
            final(self)@ == merged(old(self)@, other@),
            final(self)@.should_render == (old(self)@.should_render || other@.should_render),
            !other@.should_render ==> ids_of(final(self)@) == ids_of(old(self)@) + ids_of(other@),
            other@.should_render ==> ids_of(final(self)@) == ids_of(old(self)@),
    {
        proof {
            lemma_merge_ids(old(self)@, other@);
        }
        if other.should_render {
            self.should_render = true;
        } else if let Some(mut other_comps) = other.components_render {
            match &mut self.components_render {
                Some(comps) => {
                    comps.append(&mut other_comps);
                },
                None => {
                    self.components_render = Some(other_comps);
                },
            }
        }
    }

    /// Combines two `Updated` objects, combining the invalidated components.
    ///
    /// Equivalent to `a.merge(b)`.
    pub fn combine(first: Updated, second: Updated) -> (res: Updated)
        ensures
            res@ == merged(first@, second@),
            res@.should_render == (first@.should_render || second@.should_render),
            !second@.should_render ==> ids_of(res@) == ids_of(first@) + ids_of(second@),
            second@.should_render ==> ids_of(res@) == ids_of(first@),
    {
        let mut first = first;
        first.merge(second);
        first
    }

    /// Returns `true` if no re-render is required and no component is scheduled
    /// to be re-rendered.
    pub fn empty(&self) -> (res: bool)
        ensures
            res == (!self@.should_render && self@.components is None),
    {
        !self.should_render && self.components_render.is_none()
    }
}

impl Default for Updated {
    fn default() -> (res: Updated)
        ensures
            res@ == no_view(),
    {
        Updated::new()
    }
}

impl From<bool> for Updated {
    fn from(x: bool) -> (res: Updated)
        ensures
            res@ == (UpdatedView { should_render: x, components: None }),
    {
        Updated { should_render: x, components_render: None }
    }
}

impl vstd::std_specs::convert::FromSpecImpl<bool> for Updated {
    open spec fn obeys_from_spec() -> bool {
        true
    }

    closed spec fn from_spec(v: bool) -> Updated {
        Updated { should_render: v, components_render: None }
    }
}

impl From<Id> for Updated {
    fn from(id: Id) -> (res: Updated)
        ensures
            res@ == (UpdatedView { should_render: false, components: Some(seq![id]) }),
    {
        let mut ids: Vec<Id> = Vec::new();
        ids.push(id);
        assert(ids@ =~= seq![id]);
        Updated { should_render: false, components_render: Some(ids) }
    }
}

/// The conversion from an `Id` is described by the `ensures` of `from`, which
/// speaks of the view; no spec-level value is claimed here.
impl vstd::std_specs::convert::FromSpecImpl<Id> for Updated {
    open spec fn obeys_from_spec() -> bool {
        false
    }

    closed spec fn from_spec(v: Id) -> Updated {
        arbitrary()
    }
}

/// The components an update invalidates, none when it recorded none.
pub open spec fn ids_of(u: UpdatedView) -> Seq<Id> {
    match u.components {
        Some(c) => c,
        None => Seq::empty(),
    }
}

/// Merging `b` into `a`: a re-render is required when either requires one;
/// unless `b` requires a full re-render, the invalidated components are those
/// of `a` followed by those of `b`, and components are recorded when either
/// recorded some; when `b` requires a full re-render, the components are those
/// of `a`.
pub proof fn lemma_merge_ids(a: UpdatedView, b: UpdatedView)
    ensures
        merged(a, b).should_render == (a.should_render || b.should_render),
        !b.should_render ==> ids_of(merged(a, b)) == ids_of(a) + ids_of(b),
        b.should_render ==> ids_of(merged(a, b)) == ids_of(a),
        (merged(a, b).components is Some) <==> (a.components is Some || (!b.should_render
            && b.components is Some)),
        forall|i: int| 0 <= i < ids_of(b).len() && !b.should_render ==> ids_of(merged(a, b)).contains(
            #[trigger] ids_of(b)[i],
        ),
{
    if !b.should_render {
        assert(ids_of(merged(a, b)) =~= ids_of(a) + ids_of(b));
        assert forall|i: int| 0 <= i < ids_of(b).len() implies ids_of(merged(a, b)).contains(
            #[trigger] ids_of(b)[i],
        ) by {
            assert(ids_of(merged(a, b))[ids_of(a).len() + i] == ids_of(b)[i]);
        }
    }
}

/// Merging `Updated::no()` changes nothing.
pub proof fn lemma_merge_no(a: UpdatedView)
    ensures
        merged(a, no_view()) == a,
{
}

/// Merging into `Updated::no()` gives the merged object.
pub proof fn lemma_no_merge(b: UpdatedView)
    ensures
        merged(no_view(), b).should_render == b.should_render,
        !b.should_render ==> merged(no_view(), b) == b,
{
}

/// After a merge, a re-render is required exactly when either side required one.
pub proof fn lemma_merge_should_render(a: UpdatedView, b: UpdatedView)
    ensures
        merged(a, b).should_render == (a.should_render || b.should_render),
{
}

/// A merge never forgets an invalidated component of the object merged into.
pub proof fn lemma_merge_keeps_components(a: UpdatedView, b: UpdatedView, i: int)
    requires
        a.components matches Some(c) && 0 <= i < c.len(),
    ensures
        merged(a, b).components matches Some(m) && i < m.len() && m[i] == a.components.unwrap()[i],
{
}

} // verus!
