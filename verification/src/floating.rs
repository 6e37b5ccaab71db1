use vstd::prelude::*;

use crate::text::str_eq;

verus! {

/// Pinned windows that are shown and hidden together.
pub struct FloatingGroup {
    pub id: String,
    pub name: String,
    pub window_ids: Vec<String>,
    pub visible: bool,
}

/// The mathematical value of a group.
pub struct FloatingGroupView {
    pub id: Seq<char>,
    pub name: Seq<char>,
    pub window_ids: Seq<Seq<char>>,
    pub visible: bool,
}

impl View for FloatingGroup {
    type V = FloatingGroupView;

    open spec fn view(&self) -> FloatingGroupView {
        FloatingGroupView {
            id: self.id@,
            name: self.name@,
            window_ids: self.window_ids@.map_values(|s: String| s@),
            visible: self.visible,
        }
    }
}

/// The window ids of a group other than `id`.
pub open spec fn ids_without(ids: Seq<Seq<char>>, id: Seq<char>) -> Seq<Seq<char>> {
    ids.filter(|w: Seq<char>| w != id)
}

/// The groups with `id` taken out of each one's windows.
pub open spec fn groups_without_window(gs: Seq<FloatingGroupView>, id: Seq<char>) -> Seq<FloatingGroupView> {
    gs.map_values(|g: FloatingGroupView| FloatingGroupView { window_ids: ids_without(g.window_ids, id), ..g })
}

/// The groups other than those with id `id`.
pub open spec fn groups_without(gs: Seq<FloatingGroupView>, id: Seq<char>) -> Seq<FloatingGroupView> {
    gs.filter(|g: FloatingGroupView| g.id != id)
}

/// The groups of pinned windows, in the order they were made.
pub struct FloatingGroups {
    groups: Vec<FloatingGroup>,
}

fn strings_without(ids: &Vec<String>, id: &str) -> (r: Vec<String>)
    ensures
        r@.map_values(|s: String| s@) == ids_without(ids@.map_values(|s: String| s@), id@),
{
    let ghost v = ids@.map_values(|s: String| s@);
    let ghost pred = |w: Seq<char>| w != id@;
    let mut out: Vec<String> = Vec::new();
    let mut i: usize = 0;
    while i < ids.len()
        invariant
            v == ids@.map_values(|s: String| s@),
            pred == (|w: Seq<char>| w != id@),
            i <= ids.len(),
            out@.map_values(|s: String| s@) == v.take(i as int).filter(pred),
        decreases ids.len() - i,
    {
        proof {
            assert(v.take(i + 1) == v.take(i as int).push(v[i as int]));
            v.take(i as int).lemma_filter_push(v[i as int], pred);
        }
        if !str_eq(ids[i].as_str(), id) {
            let s = ids[i].clone();
            proof {
                assert(out@.push(s).map_values(|s: String| s@) == out@.map_values(|s: String| s@).push(s@));
            }
            out.push(s);
        }
        i = i + 1;
    }
    proof {
        assert(v.take(ids.len() as int) == v);
    }
    out
}

impl FloatingGroups {
    pub closed spec fn groups_spec(&self) -> Seq<FloatingGroupView> {
        self.groups@.map_values(|g: FloatingGroup| g@)
    }

    pub fn new() -> (r: Self)
        ensures
            r.groups_spec() == Seq::<FloatingGroupView>::empty(),
    {
        FloatingGroups { groups: Vec::new() }
    }

    /// Takes over groups read back from a saved workspace.
    pub fn from_groups(groups: Vec<FloatingGroup>) -> (r: Self)
        ensures
            r.groups_spec() == groups@.map_values(|g: FloatingGroup| g@),
    {
        FloatingGroups { groups }
    }

    /// The groups, in the order they were made.
    pub fn groups(&self) -> (r: &[FloatingGroup])
        ensures
            r@.map_values(|g: FloatingGroup| g@) == self.groups_spec(),
    {
        self.groups.as_slice()
    }

    /// Adds a visible group of the given windows.
    pub fn create_group(&mut self, id: &str, name: &str, window_ids: Vec<String>)
        ensures
            final(self).groups_spec() == old(self).groups_spec().push(
                FloatingGroupView {
                    id: id@,
                    name: name@,
                    window_ids: window_ids@.map_values(|s: String| s@),
                    visible: true,
                },
            ),
    {
        let g = FloatingGroup { id: String::from_str(id), name: String::from_str(name), window_ids, visible: true };
        self.groups.push(g);
        proof {
            assert(self.groups@.map_values(|g: FloatingGroup| g@) =~= old(self).groups@.map_values(
                |g: FloatingGroup| g@,
            ).push(g@));
        }
    }

    /// Drops every group with id `id`.
    pub fn remove_group(&mut self, id: &str)
        ensures
            final(self).groups_spec() == groups_without(old(self).groups_spec(), id@),
    {
        let ghost gs = self.groups_spec();
        let ghost pred = |g: FloatingGroupView| g.id != id@;
        let mut old_groups: Vec<FloatingGroup> = Vec::new();
        std::mem::swap(&mut old_groups, &mut self.groups);
        let mut kept: Vec<FloatingGroup> = Vec::new();
        let mut rest = old_groups;
        let ghost all = rest@;
        let mut i: usize = 0;
        let n = rest.len();
        while rest.len() > 0
            invariant
                gs == all.map_values(|g: FloatingGroup| g@),
                pred == (|g: FloatingGroupView| g.id != id@),
                n == all.len(),
                i + rest@.len() == n,
                rest@ == all.subrange(i as int, n as int),
                kept@.map_values(|g: FloatingGroup| g@) == gs.take(i as int).filter(pred),
            decreases rest.len(),
        {
            let g = rest.remove(0);
            proof {
                assert(all[i as int] == g);
                assert(gs.take(i + 1) == gs.take(i as int).push(gs[i as int]));
                gs.take(i as int).lemma_filter_push(gs[i as int], pred);
            }
            if !str_eq(g.id.as_str(), id) {
                proof {
                    assert(kept@.push(g).map_values(|g: FloatingGroup| g@) == kept@.map_values(|g: FloatingGroup| g@).push(
                        g@,
                    ));
                }
                kept.push(g);
            }
            i = i + 1;
        }
        proof {
            assert(gs.take(n as int) == gs);
        }
        self.groups = kept;
    }

    /// Takes a closed window out of every group.
    pub fn forget_window(&mut self, window_id: &str)
        ensures
            final(self).groups_spec() == groups_without_window(old(self).groups_spec(), window_id@),
    {
        let ghost gs = self.groups_spec();
        let mut old_groups: Vec<FloatingGroup> = Vec::new();
        std::mem::swap(&mut old_groups, &mut self.groups);
        let ghost all = old_groups@;
        let mut rest = old_groups;
        let mut out: Vec<FloatingGroup> = Vec::new();
        let mut i: usize = 0;
        let n = rest.len();
        while rest.len() > 0
            invariant
                gs == all.map_values(|g: FloatingGroup| g@),
                n == all.len(),
                i + rest@.len() == n,
                rest@ == all.subrange(i as int, n as int),
                out@.map_values(|g: FloatingGroup| g@) == groups_without_window(gs.take(i as int), window_id@),
            decreases rest.len(),
        {
            let g = rest.remove(0);
            proof {
                assert(all[i as int] == g);
            }
            let ids = strings_without(&g.window_ids, window_id);
            let ng = FloatingGroup { id: g.id, name: g.name, window_ids: ids, visible: g.visible };
            proof {
                assert(groups_without_window(gs.take(i + 1), window_id@) =~= groups_without_window(
                    gs.take(i as int),
                    window_id@,
                ).push(ng@));
                assert(out@.push(ng).map_values(|g: FloatingGroup| g@) =~= out@.map_values(|g: FloatingGroup| g@).push(
                    ng@,
                ));
            }
            out.push(ng);
            i = i + 1;
        }
        proof {
            assert(gs.take(n as int) == gs);
        }
        self.groups = out;
    }
}

} // verus!

verus! {

/// The position of `id` in `ids`, if it is there.
pub open spec fn id_position(ids: Seq<Seq<char>>, id: Seq<char>) -> Option<int> {
    if ids.contains(id) {
        Some(ids.index_of(id))
    } else {
        None
    }
}

/// The window kept under `id`, if any.
pub open spec fn lookup<W>(ids: Seq<Seq<char>>, ws: Seq<W>, id: Seq<char>) -> Option<W> {
    match id_position(ids, id) {
        Some(i) => Some(ws[i]),
        None => None,
    }
}

/// Ids and windows after `id` gets window `w`: an id already there keeps its place, a new
/// one goes last.
pub open spec fn after_insert<W>(ids: Seq<Seq<char>>, ws: Seq<W>, id: Seq<char>, w: W) -> (Seq<Seq<char>>, Seq<W>) {
    match id_position(ids, id) {
        Some(i) => (ids, ws.update(i, w)),
        None => (ids.push(id), ws.push(w)),
    }
}

/// Ids and windows after the window `id` is taken out.
pub open spec fn after_remove<W>(ids: Seq<Seq<char>>, ws: Seq<W>, id: Seq<char>) -> (Seq<Seq<char>>, Seq<W>) {
    match id_position(ids, id) {
        Some(i) => (ids.remove(i), ws.remove(i)),
        None => (ids, ws),
    }
}

/// Pinned windows by id, each id at most once, in the order the ids were first added.
pub struct WindowRegistry<W> {
    keys: Vec<String>,
    values: Vec<W>,
}

impl<W> WindowRegistry<W> {
    /// The ids, in order.
    pub closed spec fn ids(&self) -> Seq<Seq<char>> {
        self.keys@.map_values(|k: String| k@)
    }

    /// The windows, in the order of their ids.
    pub closed spec fn windows(&self) -> Seq<W> {
        self.values@
    }

    /// No id occurs twice, and there is one window per id.
    pub closed spec fn wf(&self) -> bool {
        &&& self.ids().no_duplicates()
        &&& self.keys.len() == self.values.len()
    }

    pub fn new() -> (r: Self)
        ensures
            r.wf(),
            r.ids() == Seq::<Seq<char>>::empty(),
            r.windows() == Seq::<W>::empty(),
    {
        let r = WindowRegistry { keys: Vec::new(), values: Vec::new() };
        assert(r.ids() =~= Seq::<Seq<char>>::empty());
        r
    }

    /// How many windows there are.
    pub fn len(&self) -> (r: usize)
        requires
            self.wf(),
        ensures
            r == self.ids().len(),
            r == self.windows().len(),
    {
        self.keys.len()
    }

    /// Where the window `id` is kept.
    pub fn position(&self, id: &str) -> (r: Option<usize>)
        requires
            self.wf(),
        ensures
            match id_position(self.ids(), id@) {
                Some(i) => r matches Some(j) && j == i && i < self.ids().len() && i < self.windows().len(),
                None => r is None,
            },
    {
        let ghost ids = self.ids();
        let mut i: usize = 0;
        while i < self.keys.len()
            invariant
                ids == self.ids(),
                self.wf(),
                ids.no_duplicates(),
                ids.len() == self.keys.len(),
                i <= self.keys.len(),
                forall|j: int| 0 <= j < i ==> ids[j] != id@,
            decreases self.keys.len() - i,
        {
            if str_eq(self.keys[i].as_str(), id) {
                proof {
                    assert(ids[i as int] == id@);
                    assert(ids.contains(id@));
                    ids.index_of_first_ensures(id@);
                    let k = ids.index_of(id@);
                    if k < i {
                        assert(ids[k] != id@);
                    }
                    if k > i {
                        assert(ids[k] == ids[i as int]);
                    }
                }
                return Some(i);
            }
            i = i + 1;
        }
        proof {
            if ids.contains(id@) {
                let k = choose|k: int| 0 <= k < ids.len() && ids[k] == id@;
                assert(ids[k] != id@);
            }
        }
        None
    }

    /// Keeps `window` under `id`: an id already there keeps its place and gets the new
    /// window (the old one is handed back), a new id goes last.
    pub fn insert(&mut self, id: &str, window: W) -> (r: Option<W>)
        requires
            old(self).wf(),
        ensures
            final(self).wf(),
            r == lookup(old(self).ids(), old(self).windows(), id@),
            (final(self).ids(), final(self).windows()) == after_insert(old(self).ids(), old(self).windows(), id@, window),
    {
        let ghost ids = self.ids();
        match self.position(id) {
            Some(i) => {
                let mut values: Vec<W> = Vec::new();
                std::mem::swap(&mut values, &mut self.values);
                let mut keys: Vec<String> = Vec::new();
                std::mem::swap(&mut keys, &mut self.keys);
                let old_window = values.remove(i);
                values.insert(i, window);
                self.keys = keys;
                self.values = values;
                Some(old_window)
            },
            None => {
                let mut values: Vec<W> = Vec::new();
                std::mem::swap(&mut values, &mut self.values);
                let mut keys: Vec<String> = Vec::new();
                std::mem::swap(&mut keys, &mut self.keys);
                keys.push(id.to_owned());
                values.push(window);
                proof {
                    assert(keys@.map_values(|k: String| k@) =~= ids.push(id@));
                    assert(!ids.contains(id@));
                    assert forall|a: int, b: int| 0 <= a < b < ids.push(id@).len() implies ids.push(id@)[a]
                        != ids.push(id@)[b] by {
                        if b == ids.len() {
                            assert(ids[a] == ids.push(id@)[a]);
                        }
                    }
                }
                self.keys = keys;
                self.values = values;
                None
            },
        }
    }

    /// Takes the window `id` out, handing it back; the others keep their order.
    pub fn remove(&mut self, id: &str) -> (r: Option<W>)
        requires
            old(self).wf(),
        ensures
            final(self).wf(),
            r == lookup(old(self).ids(), old(self).windows(), id@),
            (final(self).ids(), final(self).windows()) == after_remove(old(self).ids(), old(self).windows(), id@),
    {
        let ghost ids = self.ids();
        match self.position(id) {
            Some(i) => {
                let mut values: Vec<W> = Vec::new();
                std::mem::swap(&mut values, &mut self.values);
                let mut keys: Vec<String> = Vec::new();
                std::mem::swap(&mut keys, &mut self.keys);
                let window = values.remove(i);
                let _ = keys.remove(i);
                proof {
                    assert(keys@.map_values(|k: String| k@) =~= ids.remove(i as int));
                    assert forall|a: int, b: int| 0 <= a < b < ids.remove(i as int).len() implies ids.remove(
                        i as int,
                    )[a] != ids.remove(i as int)[b] by {
                        let a2 = if a < i { a } else { a + 1 };
                        let b2 = if b < i { b } else { b + 1 };
                        assert(ids.remove(i as int)[a] == ids[a2]);
                        assert(ids.remove(i as int)[b] == ids[b2]);
                    }
                }
                self.keys = keys;
                self.values = values;
                Some(window)
            },
            None => None,
        }
    }

    /// The window `id`, if there is one.
    pub fn get(&self, id: &str) -> (r: Option<&W>)
        requires
            self.wf(),
        ensures
            match lookup(self.ids(), self.windows(), id@) {
                Some(w) => r == Some(&w),
                None => r is None,
            },
    {
        match self.position(id) {
            Some(i) => Some(&self.values[i]),
            None => None,
        }
    }

    /// The id kept at `i`.
    pub fn id_at(&self, i: usize) -> (r: &String)
        requires
            self.wf(),
            i < self.ids().len(),
        ensures
            r@ == self.ids()[i as int],
    {
        &self.keys[i]
    }

    /// The window kept at `i`.
    pub fn window_at(&self, i: usize) -> (r: &W)
        requires
            self.wf(),
            i < self.windows().len(),
        ensures
            *r == self.windows()[i as int],
    {
        &self.values[i]
    }

    /// The window kept at `i`, to change it; the ids stay as they are.
    pub fn window_at_mut(&mut self, i: usize) -> (r: &mut W)
        requires
            old(self).wf(),
            i < old(self).windows().len(),
        ensures
            final(self).wf(),
            *r == old(self).windows()[i as int],
            final(self).ids() == old(self).ids(),
            final(self).windows() == old(self).windows().update(i as int, *final(r)),
    {
        &mut self.values[i]
    }
}

} // verus!

verus! {

/// After `id` is given a window, `id` finds that window and every other id finds what it
/// found before.
pub proof fn lemma_insert_lookup<W>(ids: Seq<Seq<char>>, ws: Seq<W>, id: Seq<char>, w: W, other: Seq<char>)
    requires
        ids.no_duplicates(),
        ids.len() == ws.len(),
    ensures
        lookup(after_insert(ids, ws, id, w).0, after_insert(ids, ws, id, w).1, id) == Some(w),
        other != id ==> lookup(after_insert(ids, ws, id, w).0, after_insert(ids, ws, id, w).1, other) == lookup(
            ids,
            ws,
            other,
        ),
{
    let (ids2, ws2) = after_insert(ids, ws, id, w);
    if ids.contains(id) {
        ids.index_of_first_ensures(id);
    } else {
        assert(ids2[ids.len() as int] == id);
        assert(ids2.contains(id));
        ids2.index_of_first_ensures(id);
        let k = ids2.index_of(id);
        if k < ids.len() {
            assert(ids[k] == id);
        }
    }
    if other != id {
        if ids.contains(other) {
            ids.index_of_first_ensures(other);
            let k = ids.index_of(other);
            assert(ids2[k] == other);
            assert(ids2.contains(other));
            ids2.index_of_first_ensures(other);
        } else {
            if ids2.contains(other) {
                let k = choose|k: int| 0 <= k < ids2.len() && ids2[k] == other;
                if k < ids.len() {
                    assert(ids[k] == other);
                }
            }
        }
    }
}

/// After the window `id` is taken out, `id` finds nothing and every other id finds what it
/// found before.
pub proof fn lemma_remove_lookup<W>(ids: Seq<Seq<char>>, ws: Seq<W>, id: Seq<char>, other: Seq<char>)
    requires
        ids.no_duplicates(),
        ids.len() == ws.len(),
    ensures
        lookup(after_remove(ids, ws, id).0, after_remove(ids, ws, id).1, id) is None,
        other != id ==> lookup(after_remove(ids, ws, id).0, after_remove(ids, ws, id).1, other) == lookup(
            ids,
            ws,
            other,
        ),
{
    let (ids2, ws2) = after_remove(ids, ws, id);
    if ids.contains(id) {
        ids.index_of_first_ensures(id);
        let i = ids.index_of(id);
        if ids2.contains(id) {
            let k = choose|k: int| 0 <= k < ids2.len() && ids2[k] == id;
            let k2 = if k < i { k } else { k + 1 };
            assert(ids2[k] == ids[k2]);
        }
        if other != id {
            if ids.contains(other) {
                ids.index_of_first_ensures(other);
                let j = ids.index_of(other);
                let j2 = if j < i { j } else { j - 1 };
                assert(ids2[j2] == other);
                assert(ids2.contains(other));
                ids2.index_of_first_ensures(other);
                let m = ids2.index_of(other);
                let m2 = if m < i { m } else { m + 1 };
                assert(ids2[m] == ids[m2]);
                if m2 != j {
                    assert(ids[m2] == ids[j]);
                }
            } else {
                if ids2.contains(other) {
                    let k = choose|k: int| 0 <= k < ids2.len() && ids2[k] == other;
                    let k2 = if k < i { k } else { k + 1 };
                    assert(ids2[k] == ids[k2]);
                }
            }
        }
    }
}

} // verus!
