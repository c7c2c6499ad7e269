//! The modules of a multi-module compilation, by identifier, and the order
//! in which they were added.

use crate::ast::Program;
use crate::json::strings_view;
use crate::project::ProjectConfig;
use vstd::prelude::*;

verus! {

/// A module read and parsed.
#[derive(Debug)]
pub struct LoadedModule {
    pub id: String,
    pub file_path: String,
    pub source: String,
    pub ast: Program,
    pub project: Option<ProjectConfig>,
}

/// The loaded modules, one per identifier, and the identifiers in the
/// order they were added, once for each addition.
#[derive(Debug)]
pub struct ModuleGraph {
    modules: Vec<LoadedModule>,
    pub topo_order: Vec<String>,
}

impl ModuleGraph {
    /// No two stored modules share an identifier.
    pub closed spec fn wf(&self) -> bool {
        forall|i: int, j: int|
            0 <= i < j < self.modules@.len() ==> (#[trigger] self.modules@[i]).id@
                != (#[trigger] self.modules@[j]).id@
    }

    /// The stored modules, by identifier.
    pub closed spec fn module_map(&self) -> Map<Seq<char>, LoadedModule> {
        Map::new(
            |id: Seq<char>| exists|i: int| 0 <= i < self.modules@.len() && #[trigger] self.modules@[i].id@ == id,
            |id: Seq<char>|
                self.modules@[choose|i: int|
                    0 <= i < self.modules@.len() && #[trigger] self.modules@[i].id@ == id],
        )
    }

    /// The identifiers in the order they were added.
    pub closed spec fn order(&self) -> Seq<Seq<char>> {
        strings_view(self.topo_order@)
    }

    /// An empty graph.
    pub fn new() -> (r: Self)
        ensures
            r.wf(),
            r.module_map() == Map::<Seq<char>, LoadedModule>::empty(),
            r.order() == Seq::<Seq<char>>::empty(),
    {
        let r = Self { modules: Vec::new(), topo_order: Vec::new() };
        proof {
            assert(r.module_map() =~= Map::<Seq<char>, LoadedModule>::empty());
            assert(r.order() =~= Seq::<Seq<char>>::empty());
        }
        r
    }

    /// Adds a module: it replaces any module of the same identifier, and its
    /// identifier is appended to the order, also when it is there already.
    pub fn add_module(&mut self, module: LoadedModule)
        requires
            old(self).wf(),
        ensures
            final(self).wf(),
            final(self).module_map() == old(self).module_map().insert(module.id@, module),
            final(self).order() == old(self).order().push(module.id@),
    {
        let id = module.id.clone();
        let ghost old_map = self.module_map();
        let ghost old_order = self.order();
        let mut pos: usize = self.modules.len();
        let mut j: usize = 0;
        while j < self.modules.len()
            invariant
                j <= self.modules.len(),
                pos <= self.modules.len(),
                pos == self.modules.len() ==> forall|k: int| 0 <= k < j ==> (#[trigger] self.modules@[k]).id@ != id@,
                pos < self.modules.len() ==> self.modules@[pos as int].id@ == id@,
            decreases self.modules.len() - j,
        {
            if pos == self.modules.len() && self.modules[j].id == id {
                pos = j;
            }
            j += 1;
        }
        let i = pos;
        let ghost old_modules = self.modules@;
        if i < self.modules.len() {
            proof {
                assert(self.modules@[i as int].id@ == id@);
            }
            self.modules.set(i, module);
            proof {
                assert(self.modules@ == old_modules.update(i as int, module));
                assert(self.module_map() =~= old_map.insert(id@, module)) by {
                    assert forall|key: Seq<char>| #[trigger] self.module_map().contains_key(key) <==> old_map.insert(id@, module).contains_key(key) by {
                        if key == id@ {
                            assert(self.modules@[i as int].id@ == key);
                        } else if old_map.contains_key(key) {
                            let k = choose|k: int| 0 <= k < old_modules.len() && #[trigger] old_modules[k].id@ == key;
                            assert(self.modules@[k].id@ == key);
                        } else if self.module_map().contains_key(key) {
                            let k = choose|k: int| 0 <= k < self.modules@.len() && #[trigger] self.modules@[k].id@ == key;
                            assert(old_modules[k].id@ == key);
                        }
                    }
                    assert forall|key: Seq<char>| #[trigger] self.module_map().contains_key(key) implies self.module_map()[key] == old_map.insert(id@, module)[key] by {
                        let k = choose|k: int| 0 <= k < self.modules@.len() && #[trigger] self.modules@[k].id@ == key;
                        if key == id@ {
                            if k != i {
                                assert(old_modules[k].id@ == old_modules[i as int].id@);
                            }
                        } else {
                            assert(old_modules[k].id@ == key);
                            let k2 = choose|k2: int| 0 <= k2 < old_modules.len() && #[trigger] old_modules[k2].id@ == key;
                            if k != k2 {
                                assert(old_modules[k].id@ == old_modules[k2].id@);
                            }
                        }
                    }
                }
            }
        } else {
            self.modules.push(module);
            proof {
                assert(self.modules@ == old_modules.push(module));
                assert(self.module_map() =~= old_map.insert(id@, module)) by {
                    assert forall|key: Seq<char>| #[trigger] self.module_map().contains_key(key) <==> old_map.insert(id@, module).contains_key(key) by {
                        if key == id@ {
                            assert(self.modules@[old_modules.len() as int].id@ == key);
                        } else if old_map.contains_key(key) {
                            let k = choose|k: int| 0 <= k < old_modules.len() && #[trigger] old_modules[k].id@ == key;
                            assert(self.modules@[k].id@ == key);
                        } else if self.module_map().contains_key(key) {
                            let k = choose|k: int| 0 <= k < self.modules@.len() && #[trigger] self.modules@[k].id@ == key;
                            assert(old_modules[k].id@ == key);
                        }
                    }
                    assert forall|key: Seq<char>| #[trigger] self.module_map().contains_key(key) implies self.module_map()[key] == old_map.insert(id@, module)[key] by {
                        let k = choose|k: int| 0 <= k < self.modules@.len() && #[trigger] self.modules@[k].id@ == key;
                        if key == id@ {
                            assert(k == old_modules.len());
                        } else {
                            assert(old_modules[k].id@ == key);
                            let k2 = choose|k2: int| 0 <= k2 < old_modules.len() && #[trigger] old_modules[k2].id@ == key;
                            if k != k2 {
                                assert(old_modules[k].id@ == old_modules[k2].id@);
                            }
                        }
                    }
                }
            }
        }
        let ghost before = self.order();
        self.topo_order.push(id);
        proof {
            assert(self.order() =~= before.push(module.id@));
        }
    }

    /// The module of an identifier, if one was added.
    pub fn get(&self, id: &String) -> (r: Option<&LoadedModule>)
        requires
            self.wf(),
        ensures
            match r {
                Some(m) => self.module_map().contains_key(id@) && *m == self.module_map()[id@],
                None => !self.module_map().contains_key(id@),
            },
    {
        let mut i: usize = 0;
        while i < self.modules.len()
            invariant
                i <= self.modules.len(),
                self.wf(),
                forall|k: int| 0 <= k < i ==> (#[trigger] self.modules@[k]).id@ != id@,
            decreases self.modules.len() - i,
        {
            if self.modules[i].id == *id {
                proof {
                    assert(self.module_map().contains_key(id@));
                    let k = choose|k: int| 0 <= k < self.modules@.len() && #[trigger] self.modules@[k].id@ == id@;
                    if k != i {
                        assert(self.modules@[k].id@ == self.modules@[i as int].id@);
                    }
                }
                return Some(&self.modules[i]);
            }
            i += 1;
        }
        None
    }

    /// The number of modules stored.
    pub fn len(&self) -> (r: usize)
        requires
            self.wf(),
        ensures
            r == self.module_map().len(),
    {
        proof {
            self.lemma_map_len();
        }
        self.modules.len()
    }

    proof fn lemma_map_len(&self)
        requires
            self.wf(),
        ensures
            self.module_map().len() == self.modules@.len(),
        decreases self.modules@.len(),
    {
        let ids = Seq::new(self.modules@.len(), |i: int| self.modules@[i].id@);
        assert(ids.no_duplicates()) by {
            assert forall|a: int, b: int| 0 <= a < ids.len() && 0 <= b < ids.len() && a != b implies ids[a] != ids[b] by {
                if a < b {
                    assert(self.modules@[a].id@ != self.modules@[b].id@);
                } else {
                    assert(self.modules@[b].id@ != self.modules@[a].id@);
                }
            }
        }
        ids.unique_seq_to_set();
        assert forall|x: Seq<char>| #[trigger] self.module_map().dom().contains(x) <==> ids.to_set().contains(x) by {
            if self.module_map().dom().contains(x) {
                let k = choose|k: int| 0 <= k < self.modules@.len() && #[trigger] self.modules@[k].id@ == x;
                assert(ids[k] == x);
            }
            if ids.to_set().contains(x) {
                let k = choose|k: int| 0 <= k < ids.len() && ids[k] == x;
                assert(self.modules@[k].id@ == x);
            }
        }
        assert(self.module_map().dom() =~= ids.to_set());
    }
}

} // verus!
