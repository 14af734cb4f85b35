//! A set of selected paths. Paths are told apart as `Path` tells them apart,
//! by their components: each is held under its key (`path_key_of`), and a
//! second way of writing a selected path finds it selected.
use vstd::prelude::*;
use vstd::hash_set::StringHashSet;
use crate::paths::{path_key, path_key_of};
use crate::text::views;

verus! {

/// The keys of `paths`, in order.
pub open spec fn keys_of(paths: Seq<Seq<char>>) -> Seq<Seq<char>> {
    paths.map_values(|p: Seq<char>| path_key_of(p))
}

/// The selected paths: a vector in selection order, each as first written,
/// beside their keys and a hash set of the keys for constant-time membership.
pub struct Selection {
    items: Vec<String>,
    keys: Vec<String>,
    members: StringHashSet,
}

impl View for Selection {
    type V = Set<Seq<char>>;

    /// The keys of the selected paths.
    closed spec fn view(&self) -> Set<Seq<char>> {
        views(self.keys@).to_set()
    }
}

impl Selection {
    /// The paths in the order the selection hands them out.
    pub closed spec fn order(&self) -> Seq<Seq<char>> {
        views(self.items@)
    }

    /// Each key is the key of the path beside it, no key is held twice, and
    /// the hash set holds exactly the keys.
    pub closed spec fn wf(&self) -> bool {
        &&& self.keys@.len() == self.items@.len()
        &&& forall|i: int| 0 <= i < self.items@.len() ==> #[trigger] self.keys@[i]@ == path_key_of(self.items@[i]@)
        &&& views(self.keys@).no_duplicates()
        &&& self.members@ == views(self.keys@).to_set()
    }

    proof fn lemma_keys(&self)
        requires
            self.wf(),
        ensures
            views(self.keys@) == keys_of(self.order()),
    {
        assert(views(self.keys@) =~= keys_of(self.order()));
    }

    pub proof fn lemma_wf(&self)
        requires
            self.wf(),
        ensures
            keys_of(self.order()).no_duplicates(),
            keys_of(self.order()).to_set() == self@,
            self@.finite(),
            self@.len() == self.order().len(),
    {
        self.lemma_keys();
        views(self.keys@).unique_seq_to_set();
        vstd::seq_lib::seq_to_set_is_finite(views(self.keys@));
    }

    pub fn new() -> (s: Selection)
        ensures
            s.wf(),
            s@ == Set::<Seq<char>>::empty(),
    {
        let s = Selection { items: Vec::new(), keys: Vec::new(), members: StringHashSet::new() };
        assert(views(s.keys@) =~= Seq::<Seq<char>>::empty());
        assert(s@ =~= Set::<Seq<char>>::empty());
        s
    }

    fn index_of(&self, key: &String) -> (r: Option<usize>)
        requires
            self.wf(),
        ensures
            r matches Some(i) ==> i < self.keys@.len() && self.keys@[i as int]@ == key@,
            r is None ==> !self@.contains(key@),
    {
        let mut i: usize = 0;
        while i < self.keys.len()
            invariant
                i <= self.keys@.len(),
                forall|k: int| 0 <= k < i ==> self.keys@[k]@ != key@,
            decreases self.keys@.len() - i,
        {
            if self.keys[i] == *key {
                return Some(i);
            }
            i = i + 1;
        }
        proof {
            if self@.contains(key@) {
                let k = choose|k: int| 0 <= k < views(self.keys@).len() && views(self.keys@)[k] == key@;
                assert(self.keys@[k]@ == key@);
            }
        }
        None
    }

    /// Whether `path` is selected, written this way or another.
    pub fn contains(&self, path: &String) -> (b: bool)
        requires
            self.wf(),
        ensures
            b == self@.contains(path_key_of(path@)),
    {
        let key = path_key(path.as_str());
        self.members.contains(key.as_str())
    }

    pub fn len(&self) -> (n: usize)
        requires
            self.wf(),
        ensures
            n == self@.len(),
    {
        proof { self.lemma_wf(); }
        self.items.len()
    }

    pub fn is_empty(&self) -> (b: bool)
        requires
            self.wf(),
        ensures
            b == (self@.len() == 0),
    {
        proof { self.lemma_wf(); }
        self.items.len() == 0
    }

    /// Adds `path` (no change when it is already selected).
    pub fn insert(&mut self, path: String)
        requires
            old(self).wf(),
        ensures
            final(self).wf(),
            final(self)@ == old(self)@.insert(path_key_of(path@)),
            !old(self)@.contains(path_key_of(path@)) ==> final(self).order() == old(self).order().push(path@),
            old(self)@.contains(path_key_of(path@)) ==> final(self).order() == old(self).order(),
    {
        let key = path_key(path.as_str());
        if !self.members.contains(key.as_str()) {
            let ghost old_keys = views(self.keys@);
            let ghost old_items = self.items@;
            self.members.insert(key.clone());
            self.keys.push(key);
            self.items.push(path);
            proof {
                assert(views(self.keys@) =~= old_keys.push(key@));
                assert(views(self.items@) =~= views(old_items).push(path@));
                old_keys.lemma_push_to_set_commute(key@);
                assert forall|i: int| 0 <= i < self.items@.len() implies #[trigger] self.keys@[i]@ == path_key_of(self.items@[i]@) by {
                    if i < old_items.len() {
                        assert(self.items@[i] == old_items[i]);
                        assert(self.keys@[i]@ == old_keys[i]);
                        assert(old(self).keys@[i]@ == path_key_of(old(self).items@[i]@));
                    }
                }
                assert(views(self.keys@).no_duplicates()) by {
                    assert forall|a: int, b: int|
                        0 <= a < views(self.keys@).len() && 0 <= b < views(self.keys@).len() && a != b
                        implies views(self.keys@)[a] != views(self.keys@)[b] by {
                        if a == old_keys.len() as int {
                            assert(old_keys.contains(views(self.keys@)[b]));
                        } else if b == old_keys.len() as int {
                            assert(old_keys.contains(views(self.keys@)[a]));
                        }
                    }
                }
            }
        } else {
            assert(old(self)@.insert(path_key_of(path@)) =~= old(self)@);
        }
    }

    /// Drops `path`, written this way or another (no change when it is not
    /// selected).
    pub fn remove(&mut self, path: &String)
        requires
            old(self).wf(),
        ensures
            final(self).wf(),
            final(self)@ == old(self)@.remove(path_key_of(path@)),
    {
        let key = path_key(path.as_str());
        match self.index_of(&key) {
            Some(i) => {
                let ghost old_keys = views(self.keys@);
                let ghost old_items = self.items@;
                self.members.remove(key.as_str());
                self.keys.remove(i);
                self.items.remove(i);
                proof {
                    assert(views(self.keys@) =~= old_keys.remove(i as int));
                    assert(views(self.keys@).no_duplicates());
                    assert forall|j: int| 0 <= j < self.items@.len() implies #[trigger] self.keys@[j]@ == path_key_of(self.items@[j]@) by {
                        if j < i {
                            assert(self.items@[j] == old_items[j]);
                            assert(old(self).keys@[j]@ == path_key_of(old(self).items@[j]@));
                        } else {
                            assert(self.items@[j] == old_items[j + 1]);
                            assert(old(self).keys@[j + 1]@ == path_key_of(old(self).items@[j + 1]@));
                        }
                    }
                    assert forall|y: Seq<char>| views(self.keys@).to_set().contains(y) <==> old_keys.to_set().remove(key@).contains(y) by {
                        if views(self.keys@).contains(y) {
                            let k = choose|k: int| 0 <= k < views(self.keys@).len() && views(self.keys@)[k] == y;
                            if k < i {
                                assert(old_keys[k] == y);
                                assert(old_keys[i as int] == key@);
                            } else {
                                assert(old_keys[k + 1] == y);
                                assert(old_keys[i as int] == key@);
                            }
                            assert(old_keys.contains(y));
                            assert(y != key@);
                        }
                        if old_keys.contains(y) && y != key@ {
                            let k = choose|k: int| 0 <= k < old_keys.len() && old_keys[k] == y;
                            if k < i {
                                assert(views(self.keys@)[k] == y);
                            } else {
                                assert(views(self.keys@)[k - 1] == y);
                            }
                        }
                    }
                    assert(views(self.keys@).to_set() =~= old_keys.to_set().remove(key@));
                }
            },
            None => {
                assert(old(self)@.remove(key@) =~= old(self)@);
            },
        }
    }

    /// Selects `path` when it is not selected, unselects it otherwise.
    pub fn toggle(&mut self, path: String)
        requires
            old(self).wf(),
        ensures
            final(self).wf(),
            old(self)@.contains(path_key_of(path@)) ==> final(self)@ == old(self)@.remove(path_key_of(path@)),
            !old(self)@.contains(path_key_of(path@)) ==> final(self)@ == old(self)@.insert(path_key_of(path@)),
    {
        if self.contains(&path) {
            self.remove(&path);
        } else {
            self.insert(path);
        }
    }

    /// Unselects everything.
    pub fn clear(&mut self)
        ensures
            final(self).wf(),
            final(self)@ == Set::<Seq<char>>::empty(),
    {
        self.items.clear();
        self.keys.clear();
        self.members.clear();
        assert(views(self.keys@) =~= Seq::<Seq<char>>::empty());
        assert(self@ =~= Set::<Seq<char>>::empty());
    }

    /// Adds every path of `paths`.
    pub fn insert_all(&mut self, paths: &Vec<String>)
        requires
            old(self).wf(),
        ensures
            final(self).wf(),
            final(self)@ == old(self)@.union(keys_of(views(paths@)).to_set()),
    {
        let mut i: usize = 0;
        while i < paths.len()
            invariant
                i <= paths@.len(),
                self.wf(),
                self@ == old(self)@.union(keys_of(views(paths@)).take(i as int).to_set()),
            decreases paths@.len() - i,
        {
            self.insert(paths[i].clone());
            proof {
                let t = keys_of(views(paths@)).take(i as int);
                assert(keys_of(views(paths@)).take(i + 1) =~= t.push(path_key_of(paths@[i as int]@)));
                t.lemma_push_to_set_commute(path_key_of(paths@[i as int]@));
            }
            i = i + 1;
        }
        assert(keys_of(views(paths@)).take(paths@.len() as int) =~= keys_of(views(paths@)));
    }

    /// The selected paths, each once (as first written).
    pub fn paths(&self) -> (v: Vec<String>)
        requires
            self.wf(),
        ensures
            views(v@) == self.order(),
            keys_of(views(v@)).to_set() == self@,
            keys_of(views(v@)).no_duplicates(),
    {
        proof { self.lemma_wf(); }
        self.items.clone()
    }
}

} // verus!
