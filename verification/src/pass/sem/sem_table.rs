use vstd::prelude::*;
use crate::text::str_equal;
use super::types::type_map::TypeMap;
use super::types::inference::InferenceGroup;

verus! {

/// The names bound in one scope and the nodes they are bound to; a later
/// pair for a name takes the place of an earlier one.
pub open spec fn scope_map(pairs: Seq<(String, usize)>) -> Map<Seq<char>, usize>
    decreases pairs.len(),
{
    if pairs.len() == 0 {
        Map::empty()
    } else {
        scope_map(pairs.drop_last()).insert(pairs.last().0@, pairs.last().1)
    }
}

/// The node that `name` is bound to in the innermost scope that binds it.
pub open spec fn lookup_in(scopes: Seq<Map<Seq<char>, usize>>, name: Seq<char>) -> Option<usize>
    decreases scopes.len(),
{
    if scopes.len() == 0 {
        None
    } else if scopes.last().contains_key(name) {
        Some(scopes.last()[name])
    } else {
        lookup_in(scopes.drop_last(), name)
    }
}

/// After `name` is bound to `node` in the innermost scope, looking `name`
/// up finds `node`.
pub proof fn law_lookup_after_binding(scopes: Seq<Map<Seq<char>, usize>>, name: Seq<char>, node: usize)
    requires
        scopes.len() > 0,
    ensures
        lookup_in(scopes.update(scopes.len() - 1, scopes.last().insert(name, node)), name) == Some(node),
{
    let s2 = scopes.update(scopes.len() - 1, scopes.last().insert(name, node));
    assert(s2.last() == scopes.last().insert(name, node));
}

/// A new empty scope hides nothing: every name is found where it was.
pub proof fn law_new_scope_hides_nothing(scopes: Seq<Map<Seq<char>, usize>>, name: Seq<char>)
    ensures
        lookup_in(scopes.push(Map::empty()), name) == lookup_in(scopes, name),
{
    assert(scopes.push(Map::empty()).drop_last() =~= scopes);
}

/// Binding a name leaves what every other name is found to be.
pub proof fn law_binding_keeps_other_names(scopes: Seq<Map<Seq<char>, usize>>, name: Seq<char>, other: Seq<char>, node: usize)
    requires
        scopes.len() > 0,
        other != name,
    ensures
        lookup_in(scopes.update(scopes.len() - 1, scopes.last().insert(name, node)), other) == lookup_in(scopes, other),
{
    let s2 = scopes.update(scopes.len() - 1, scopes.last().insert(name, node));
    assert(s2.drop_last() =~= scopes.drop_last());
    assert(s2.last() == scopes.last().insert(name, node));
}

/// The scopes of names met so far, innermost last, and the types that
/// inference gives the nodes.
pub struct SemTable {
    pub scopes: Vec<Vec<(String, usize)>>,
    pub types: TypeMap,
}

impl SemTable {
    /// The scopes, outermost first, each as a map from names to nodes.
    pub open spec fn scopes_view(&self) -> Seq<Map<Seq<char>, usize>> {
        self.scopes@.map_values(|s: Vec<(String, usize)>| scope_map(s@))
    }

    /// The type map, for contracts.
    pub open spec fn tmap(&self) -> TypeMap {
        self.types
    }

    /// The type map is in order and every name is bound to one of its nodes.
    pub open spec fn wf(&self) -> bool {
        &&& self.types.wf()
        &&& self.types.nodes_ok()
        &&& forall|i: int, name: Seq<char>| 0 <= i < self.scopes_view().len()
            && #[trigger] self.scopes_view()[i].contains_key(name)
            ==> self.scopes_view()[i][name] < self.types.node_types().len()
    }

    /// A table with one empty scope and no nodes.
    pub fn new() -> (r: Self)
        ensures
            r.wf(),
            r.scopes_view() == seq![Map::<Seq<char>, usize>::empty()],
            r.tmap().next_id() == 0,
            r.tmap().node_types() == Seq::<super::types::TypeV>::empty(),
    {
        let mut scopes: Vec<Vec<(String, usize)>> = Vec::new();
        scopes.push(Vec::new());
        let r = SemTable { scopes, types: TypeMap::new() };
        proof {
            assert(scope_map(Seq::<(String, usize)>::empty()) == Map::<Seq<char>, usize>::empty());
            assert(r.scopes_view() =~= seq![Map::<Seq<char>, usize>::empty()]);
        }
        r
    }

    /// Opens a new, empty, innermost scope.
    pub fn push_scope(&mut self)
        requires
            old(self).wf(),
        ensures
            final(self).wf(),
            final(self).scopes_view() == old(self).scopes_view().push(Map::empty()),
            final(self).tmap() == old(self).tmap(),
    {
        self.scopes.push(Vec::new());
        proof {
            assert(scope_map(Seq::<(String, usize)>::empty()) == Map::<Seq<char>, usize>::empty());
            assert(self.scopes_view() =~= old(self).scopes_view().push(Map::empty()));
        }
    }

    /// Closes the innermost scope.
    pub fn pop_scope(&mut self)
        requires
            old(self).wf(),
            old(self).scopes_view().len() > 0,
        ensures
            final(self).wf(),
            final(self).scopes_view() == old(self).scopes_view().drop_last(),
            final(self).tmap() == old(self).tmap(),
    {
        self.scopes.pop();
        proof {
            assert(self.scopes_view() =~= old(self).scopes_view().drop_last());
        }
    }

    /// Binds `name` to `node` in the innermost scope, and gives the node it
    /// was bound to there before, if any.
    pub fn insert_scope_binding(&mut self, name: &str, node: usize) -> (r: Option<usize>)
        requires
            old(self).wf(),
            old(self).scopes_view().len() > 0,
            node < old(self).tmap().node_types().len(),
        ensures
            final(self).wf(),
            r == old(self).scopes_view().last().get(name@),
            final(self).scopes_view() == old(self).scopes_view().update(
                old(self).scopes_view().len() - 1,
                old(self).scopes_view().last().insert(name@, node),
            ),
            final(self).tmap() == old(self).tmap(),
    {
        let last = self.scopes.len() - 1;
        let previous = Self::find_in_scope(&self.scopes[last], name);
        let mut scope = Vec::new();
        std::mem::swap(&mut scope, &mut self.scopes[last]);
        let ghost before = scope@;
        scope.push((name.to_owned(), node));
        self.scopes.set(last, scope);
        proof {
            assert(scope@.drop_last() =~= before);
            let sv = self.scopes_view();
            let ov = old(self).scopes_view();
            assert(sv =~= ov.update(ov.len() - 1, ov.last().insert(name@, node)));
            assert forall|i: int, n: Seq<char>| 0 <= i < sv.len() && #[trigger] sv[i].contains_key(n)
                implies sv[i][n] < self.types.node_types().len() by {
                if i == sv.len() - 1 && n != name@ {
                    assert(ov[i].contains_key(n));
                }
            }
        }
        previous
    }

    /// The node that `name` is bound to in one scope, if any.
    fn find_in_scope(scope: &Vec<(String, usize)>, name: &str) -> (r: Option<usize>)
        ensures
            r == scope_map(scope@).get(name@),
    {
        let mut k = scope.len();
        proof {
            assert(scope@.take(k as int) =~= scope@);
        }
        while k > 0
            invariant
                k <= scope.len(),
                scope_map(scope@).get(name@) == scope_map(scope@.take(k as int)).get(name@),
            decreases k,
        {
            proof {
                assert(scope@.take(k as int).drop_last() =~= scope@.take(k - 1));
            }
            if str_equal(scope[k - 1].0.as_str(), name) {
                return Some(scope[k - 1].1);
            }
            k -= 1;
        }
        proof {
            assert(scope_map(scope@.take(0)) == Map::<Seq<char>, usize>::empty());
        }
        None
    }

    /// The node that `name` is bound to in the innermost scope that binds it.
    pub fn lookup(&self, name: &str) -> (r: Option<usize>)
        ensures
            r == lookup_in(self.scopes_view(), name@),
    {
        let mut i = self.scopes.len();
        proof {
            assert(self.scopes_view().take(i as int) =~= self.scopes_view());
        }
        while i > 0
            invariant
                i <= self.scopes.len(),
                lookup_in(self.scopes_view(), name@) == lookup_in(self.scopes_view().take(i as int), name@),
            decreases i,
        {
            proof {
                assert(self.scopes_view().take(i as int).drop_last() =~= self.scopes_view().take(i - 1));
            }
            match Self::find_in_scope(&self.scopes[i - 1], name) {
                Some(node) => {
                    return Some(node);
                },
                None => {},
            }
            i -= 1;
        }
        None
    }

    /// A new group of unifications to be solved together.
    pub fn new_inference_group(&self) -> (r: InferenceGroup)
        ensures
            r.items().len() == 0,
    {
        InferenceGroup::new()
    }
}

} // verus!
