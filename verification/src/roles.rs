//! The role registry: interns role names to stable identifiers during one
//! parse; a name maps to at most one `Role` per registry.
use vstd::prelude::*;

use crate::ast::Role;

verus! {

/// Maps role names to identifiers. The view is the sequence of interned
/// names; `Role { id }` is an index into it.
#[derive(Debug)]
pub struct RoleRegistry {
    names: Vec<String>,
}

impl View for RoleRegistry {
    type V = Seq<Seq<char>>;

    closed spec fn view(&self) -> Seq<Seq<char>> {
        self.names.deep_view()
    }
}

/// Where `name` stands in `names`: the first index holding it.
pub open spec fn name_index(names: Seq<Seq<char>>, name: Seq<char>) -> Option<nat>
    decreases names.len(),
{
    if names.len() == 0 {
        None
    } else if names[0] == name {
        Some(0nat)
    } else {
        match name_index(names.drop_first(), name) {
            Some(i) => Some((i + 1) as nat),
            None => None,
        }
    }
}

/// What interning does to a registry's names: an already-present name
/// resolves to its first index, a new one is appended.
pub open spec fn intern_spec(names: Seq<Seq<char>>, name: Seq<char>) -> (Seq<Seq<char>>, nat) {
    match name_index(names, name) {
        Some(i) => (names, i),
        None => (names.push(name), names.len()),
    }
}

pub proof fn lemma_name_index(names: Seq<Seq<char>>, name: Seq<char>)
    ensures
        name_index(names, name) matches Some(i) ==> i < names.len() && names[i as int] == name,
        name_index(names, name) is None ==> !names.contains(name),
    decreases names.len(),
{
    if names.len() > 0 {
        lemma_name_index(names.drop_first(), name);
        if name_index(names, name) is None {
            assert forall|k: int| 0 <= k < names.len() implies names[k] != name by {
                if k > 0 {
                    assert(names.drop_first()[k - 1] == names[k]);
                }
            }
        }
    }
}

impl RoleRegistry {
    /// No name is interned twice.
    pub open spec fn wf(&self) -> bool {
        crate::ast::distinct_seqs(self@)
    }

    /// An empty registry, ready for one parse.
    pub fn new() -> (r: RoleRegistry)
        ensures
            r@ == Seq::<Seq<char>>::empty(),
            r.wf(),
    {
        RoleRegistry { names: Vec::new() }
    }

    /// The first index whose name equals `name`, if any.
    fn find_index(&self, name: &str) -> (r: Option<usize>)
        ensures
            match r {
                Some(i) => name_index(self@, name@) == Some(i as nat),
                None => name_index(self@, name@) is None,
            },
    {
        let owned: String = name.to_owned();
        let n = self.names.len();
        for i in 0..n
            invariant
                n == self.names.len(),
                owned@ == name@,
                name_index(self@.take(i as int), name@) is None,
        {
            proof {
                lemma_name_index_extend(self@, name@, i as int);
            }
            if self.names[i] == owned {
                return Some(i);
            }
        }
        proof {
            assert(self@.take(n as int) =~= self@);
        }
        None
    }

    /// Returns the role already registered under `name`, or registers a
    /// fresh one. Repeated occurrences of one name yield one identifier.
    pub fn intern(&mut self, name: &str) -> (r: Role)
        requires
            old(self).wf(),
        ensures
            final(self).wf(),
            (final(self)@, r.id as nat) == intern_spec(old(self)@, name@),
            r.id < final(self)@.len(),
            final(self)@[r.id as int] == name@,
            final(self)@.len() >= old(self)@.len(),
            forall|k: int| 0 <= k < old(self)@.len() ==> final(self)@[k] == old(self)@[k],
    {
        proof {
            lemma_name_index(self@, name@);
        }
        match self.find_index(name) {
            Some(i) => Role { id: i },
            None => {
                let id = self.names.len();
                self.names.push(name.to_owned());
                proof {
                    assert(self@ =~= old(self)@.push(name@));
                }
                Role { id }
            },
        }
    }

    /// Looks a name up without registering it; `None` means the name never
    /// occurred in this registry's parse.
    pub fn find_by_name(&self, name: &str) -> (r: Option<Role>)
        requires
            self.wf(),
        ensures
            match r {
                Some(role) => {
                    &&& role.id < self@.len()
                    &&& self@[role.id as int] == name@
                },
                None => !self@.contains(name@),
            },
    {
        proof {
            lemma_name_index(self@, name@);
        }
        match self.find_index(name) {
            Some(i) => Some(Role { id: i }),
            None => None,
        }
    }

    /// The canonical name that `role` was interned under.
    pub fn name_of(&self, role: Role) -> (r: &str)
        requires
            role.id < self@.len(),
        ensures
            r@ == self@[role.id as int],
    {
        self.names[role.id].as_str()
    }

    /// How many roles have been interned.
    pub fn len(&self) -> (r: usize)
        ensures
            r == self@.len(),
    {
        self.names.len()
    }
}

/// Scanning one more entry: if `name` is absent from the first `i` entries
/// and entry `i` misses too, it is absent from the first `i + 1`; if entry
/// `i` holds it, it is the first index.
proof fn lemma_name_index_extend(names: Seq<Seq<char>>, name: Seq<char>, i: int)
    requires
        0 <= i < names.len(),
        name_index(names.take(i), name) is None,
    ensures
        names[i] == name ==> name_index(names, name) == Some(i as nat),
        names[i] != name ==> name_index(names.take(i + 1), name) is None,
    decreases i,
{
    if i == 0 {
        if names[0] == name {
            assert(name_index(names, name) == Some(0nat));
        } else {
            assert(names.take(1).len() == 1);
            assert(names.take(1)[0] == names[0]);
            assert(names.take(1).drop_first() =~= Seq::<Seq<char>>::empty());
            assert(name_index(names.take(1).drop_first(), name) is None);
            assert(name_index(names.take(1), name) is None);
        }
    } else {
        assert(names.take(i)[0] == names[0]);
        assert(names[0] != name);
        assert(names.take(i).drop_first() =~= names.drop_first().take(i - 1));
        lemma_name_index_extend(names.drop_first(), name, i - 1);
        assert(names.drop_first()[i - 1] == names[i]);
        if names[i] == name {
            assert(name_index(names.drop_first(), name) == Some((i - 1) as nat));
        } else {
            assert(names.take(i + 1)[0] == names[0]);
            assert(names.take(i + 1).drop_first() =~= names.drop_first().take(i));
            assert(name_index(names.drop_first().take(i), name) is None);
            assert(name_index(names.take(i + 1), name) is None);
        }
    }
}

} // verus!
