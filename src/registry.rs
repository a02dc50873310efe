//! The component registry: one registration per component type, each holding
//! the routine that serializes one instance of that type.
use crate::storage::same_component_type;
use legion::storage::ComponentTypeId;
use vstd::prelude::*;

verus! {

/// A component type together with the routine that serializes one instance
/// of it.
pub struct ComponentRegistration<F> {
    pub ty: ComponentTypeId,
    pub individual_comp_serialize_fn: F,
}

/// Registrations keyed by component type, at most one per type.
pub struct ComponentRegistry<F> {
    pub registrations: Vec<ComponentRegistration<F>>,
}

/// The mapping that a list of registrations stands for; a later entry for a
/// type overrides an earlier one.
pub open spec fn registration_map<F>(s: Seq<ComponentRegistration<F>>) -> Map<ComponentTypeId, F>
    decreases s.len(),
{
    if s.len() == 0 {
        Map::empty()
    } else {
        registration_map(s.drop_last()).insert(s.last().ty, s.last().individual_comp_serialize_fn)
    }
}

pub open spec fn unique_types<F>(s: Seq<ComponentRegistration<F>>) -> bool {
    forall|i: int, j: int| 0 <= i < s.len() && 0 <= j < s.len() && i != j ==> s[i].ty != s[j].ty
}

proof fn lemma_registration_map_lookup<F>(s: Seq<ComponentRegistration<F>>, t: ComponentTypeId)
    requires
        unique_types(s),
    ensures
        registration_map(s).contains_key(t) <==> exists|i: int| 0 <= i < s.len() && s[i].ty == t,
        forall|i: int|
            0 <= i < s.len() && s[i].ty == t ==> registration_map(s)[t]
                == s[i].individual_comp_serialize_fn,
    decreases s.len(),
{
    if s.len() > 0 {
        let p = s.drop_last();
        lemma_registration_map_lookup(p, t);
        if exists|i: int| 0 <= i < p.len() && p[i].ty == t {
            let i = choose|i: int| 0 <= i < p.len() && p[i].ty == t;
            assert(s[i].ty == t);
        }
        if exists|i: int| 0 <= i < s.len() && s[i].ty == t {
            let i = choose|i: int| 0 <= i < s.len() && s[i].ty == t;
            if i < s.len() - 1 {
                assert(p[i].ty == t);
            }
        }
    }
}

proof fn lemma_registration_map_update<F>(
    s: Seq<ComponentRegistration<F>>,
    i: int,
    x: ComponentRegistration<F>,
)
    requires
        unique_types(s),
        0 <= i < s.len(),
        s[i].ty == x.ty,
    ensures
        registration_map(s.update(i, x)) == registration_map(s).insert(
            x.ty,
            x.individual_comp_serialize_fn,
        ),
    decreases s.len(),
{
    let u = s.update(i, x);
    let p = s.drop_last();
    if i == s.len() - 1 {
        assert(u.drop_last() =~= p);
    } else {
        assert(u.drop_last() =~= p.update(i, x));
        lemma_registration_map_update(p, i, x);
        assert(s.last().ty != x.ty);
    }
    assert(registration_map(u) =~= registration_map(s).insert(x.ty, x.individual_comp_serialize_fn));
}

impl<F> View for ComponentRegistry<F> {
    type V = Map<ComponentTypeId, F>;

    open spec fn view(&self) -> Map<ComponentTypeId, F> {
        registration_map(self.registrations@)
    }
}

impl<F> Default for ComponentRegistry<F> {
    fn default() -> (r: Self)
        ensures
            r.wf(),
            r@ == Map::<ComponentTypeId, F>::empty(),
    {
        ComponentRegistry::new()
    }
}

impl<F> ComponentRegistry<F> {
    pub open spec fn wf(&self) -> bool {
        unique_types(self.registrations@)
    }

    /// An empty registry.
    pub fn new() -> (r: Self)
        ensures
            r.wf(),
            r@ == Map::<ComponentTypeId, F>::empty(),
    {
        ComponentRegistry { registrations: Vec::new() }
    }

    /// Stores a registration for its type, replacing any earlier one for the
    /// same type.
    pub fn register(&mut self, registration: ComponentRegistration<F>)
        requires
            old(self).wf(),
        ensures
            final(self).wf(),
            final(self)@ == old(self)@.insert(
                registration.ty,
                registration.individual_comp_serialize_fn,
            ),
    {
        let ghost s = self.registrations@;
        let mut i: usize = 0;
        while i < self.registrations.len()
            invariant
                self.registrations@ == s,
                old(self).registrations@ == s,
                unique_types(s),
                0 <= i <= s.len(),
                forall|j: int| 0 <= j < i ==> s[j].ty != registration.ty,
            decreases s.len() - i,
        {
            if same_component_type(&self.registrations[i].ty, &registration.ty) {
                proof {
                    lemma_registration_map_update(s, i as int, registration);
                }
                self.registrations.set(i, registration);
                assert(self.registrations@ == s.update(i as int, registration));
                return;
            }
            i = i + 1;
        }
        self.registrations.push(registration);
        assert(self.registrations@.drop_last() =~= s);
    }

    /// The registration for a component type, if there is one.
    pub fn get(&self, type_id: ComponentTypeId) -> (r: Option<&ComponentRegistration<F>>)
        requires
            self.wf(),
        ensures
            r is Some <==> self@.contains_key(type_id),
            r matches Some(g) ==> g.ty == type_id && g.individual_comp_serialize_fn
                == self@[type_id],
    {
        let ghost s = self.registrations@;
        proof {
            lemma_registration_map_lookup(s, type_id);
        }
        let mut i: usize = 0;
        while i < self.registrations.len()
            invariant
                self.registrations@ == s,
                0 <= i <= s.len(),
                forall|j: int| 0 <= j < i ==> s[j].ty != type_id,
                registration_map(s).contains_key(type_id) <==> exists|j: int|
                    0 <= j < s.len() && s[j].ty == type_id,
                forall|j: int|
                    0 <= j < s.len() && s[j].ty == type_id ==> registration_map(s)[type_id]
                        == s[j].individual_comp_serialize_fn,
            decreases s.len() - i,
        {
            if same_component_type(&self.registrations[i].ty, &type_id) {
                return Some(&self.registrations[i]);
            }
            i = i + 1;
        }
        None
    }
}

/// Registering twice for the same type leaves one registration for it, the
/// one registered second, and leaves the other types as they were.
pub proof fn lemma_register_twice<F>(
    before: ComponentRegistry<F>,
    between: ComponentRegistry<F>,
    after: ComponentRegistry<F>,
    first: ComponentRegistration<F>,
    second: ComponentRegistration<F>,
)
    requires
        after.wf(),
        first.ty == second.ty,
        between@ == before@.insert(first.ty, first.individual_comp_serialize_fn),
        after@ == between@.insert(second.ty, second.individual_comp_serialize_fn),
    ensures
        after@ == before@.insert(second.ty, second.individual_comp_serialize_fn),
        exists|i: int|
            0 <= i < after.registrations@.len() && after.registrations@[i] == second,
        forall|i: int, j: int|
            0 <= i < after.registrations@.len() && 0 <= j < after.registrations@.len()
                && after.registrations@[i].ty == second.ty && after.registrations@[j].ty
                == second.ty ==> i == j,
{
    let s = after.registrations@;
    assert(after@ =~= before@.insert(second.ty, second.individual_comp_serialize_fn));
    lemma_registration_map_lookup(s, second.ty);
    let i = choose|i: int| 0 <= i < s.len() && s[i].ty == second.ty;
    assert(s[i] == second);
}

} // verus!
