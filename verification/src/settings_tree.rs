use vstd::prelude::*;

use crate::settings::{key_segments, lemma_key_segments_nonempty, split_key_path};
use crate::text::{push_str, str_eq, string_from};

verus! {

/// A settings document as a JSON tree: `null`, an object with its members in order, or any
/// other JSON value kept as its JSON text (a dotted key never reaches inside one).
pub enum SettingsTree {
    Null,
    Scalar(String),
    Object(Vec<(String, SettingsTree)>),
}

/// The mathematical value of a settings tree.
pub enum TreeView {
    Null,
    Scalar(Seq<char>),
    Object(Seq<(Seq<char>, TreeView)>),
}

pub open spec fn tree_view(t: SettingsTree) -> TreeView
    decreases t, 0int,
{
    match t {
        SettingsTree::Null => TreeView::Null,
        SettingsTree::Scalar(s) => TreeView::Scalar(s@),
        SettingsTree::Object(es) => TreeView::Object(entries_view(es@)),
    }
}

pub open spec fn entries_view(es: Seq<(String, SettingsTree)>) -> Seq<(Seq<char>, TreeView)>
    decreases es, 1int,
{
    if es.len() == 0 {
        Seq::empty()
    } else {
        entries_view(es.subrange(0, es.len() - 1)).push((es[es.len() - 1].0@, tree_view(es[es.len() - 1].1)))
    }
}

impl View for SettingsTree {
    type V = TreeView;

    open spec fn view(&self) -> TreeView {
        tree_view(*self)
    }
}

/// The members of an object, member by member.
pub proof fn lemma_entries_view(es: Seq<(String, SettingsTree)>)
    ensures
        entries_view(es).len() == es.len(),
        forall|j: int| 0 <= j < es.len() ==> #[trigger] entries_view(es)[j] == (es[j].0@, tree_view(es[j].1)),
    decreases es.len(),
{
    if es.len() > 0 {
        lemma_entries_view(es.subrange(0, es.len() - 1));
    }
}

/// The index of the first member named `key`, if any.
pub open spec fn first_key(es: Seq<(Seq<char>, TreeView)>, key: Seq<char>) -> Option<int> {
    if exists|i: int| 0 <= i < es.len() && (#[trigger] es[i]).0 == key {
        Some(choose|i: int| 0 <= i < es.len() && es[i].0 == key && forall|j: int| 0 <= j < i ==> (#[trigger] es[j]).0 != key)
    } else {
        None
    }
}

/// `first_key` is the first index whose member has the name.
pub proof fn lemma_first_key(es: Seq<(Seq<char>, TreeView)>, key: Seq<char>, i: int)
    requires
        0 <= i < es.len(),
        es[i].0 == key,
        forall|j: int| 0 <= j < i ==> (#[trigger] es[j]).0 != key,
    ensures
        first_key(es, key) == Some(i),
{
    let k = first_key(es, key)->0;
    assert(0 <= k < es.len() && es[k].0 == key);
    if k < i {
        assert(es[k].0 != key);
    }
    if k > i {
        assert(es[i].0 != key);
    }
}

/// The member `key` of an object; nothing for any other value.
pub open spec fn child(t: TreeView, key: Seq<char>) -> Option<TreeView> {
    match t {
        TreeView::Object(es) => match first_key(es, key) {
            Some(i) => Some(es[i].1),
            None => None,
        },
        _ => None,
    }
}

/// What a dotted path reaches: the tree itself for no segment, else the first segment's
/// member followed by the rest.
pub open spec fn get_path(t: TreeView, path: Seq<Seq<char>>) -> Option<TreeView>
    decreases path.len(),
{
    if path.len() == 0 {
        Some(t)
    } else {
        match child(t, path[0]) {
            Some(c) => get_path(c, path.drop_first()),
            None => None,
        }
    }
}

/// `t[key] = v` on a JSON value: an object gets the member replaced or appended, `null`
/// becomes an object of that one member, any other value cannot take a member.
pub open spec fn put(t: TreeView, key: Seq<char>, v: TreeView) -> Option<TreeView> {
    match t {
        TreeView::Object(es) => match first_key(es, key) {
            Some(i) => Some(TreeView::Object(es.update(i, (key, v)))),
            None => Some(TreeView::Object(es.push((key, v)))),
        },
        TreeView::Null => Some(TreeView::Object(seq![(key, v)])),
        TreeView::Scalar(_) => None,
    }
}

/// The outcome of writing a value at a dotted path.
pub enum PathWrite {
    /// The tree after the write.
    Written(TreeView),
    /// A segment before the last names no member.
    KeyMissing,
    /// The last segment would go into a value that is neither an object nor `null`.
    NotAnObject,
}

/// Writing `v` at `path`: every segment but the last must name a member, then the last is
/// put into what they reach.
pub open spec fn write_path(t: TreeView, path: Seq<Seq<char>>, v: TreeView) -> PathWrite
    decreases path.len(),
{
    if path.len() <= 1 {
        match put(t, path[0], v) {
            Some(t2) => PathWrite::Written(t2),
            None => PathWrite::NotAnObject,
        }
    } else {
        match t {
            TreeView::Object(es) => match first_key(es, path[0]) {
                Some(i) => match write_path(es[i].1, path.drop_first(), v) {
                    PathWrite::Written(c2) => PathWrite::Written(TreeView::Object(es.update(i, (es[i].0, c2)))),
                    other => other,
                },
                None => PathWrite::KeyMissing,
            },
            _ => PathWrite::KeyMissing,
        }
    }
}

/// Whether the last segment of `path` lands in a value that is neither an object nor `null`,
/// every segment before it naming a member.
pub open spec fn reaches_non_object(t: TreeView, path: Seq<Seq<char>>) -> bool
    decreases path.len(),
{
    if path.len() <= 1 {
        t is Scalar
    } else {
        match t {
            TreeView::Object(es) => match first_key(es, path[0]) {
                Some(i) => reaches_non_object(es[i].1, path.drop_first()),
                None => false,
            },
            _ => false,
        }
    }
}

/// A write fails for want of an object exactly where the path reaches a non-object,
/// whatever is written.
pub proof fn lemma_non_object(t: TreeView, path: Seq<Seq<char>>, v: TreeView)
    requires
        path.len() >= 1,
    ensures
        (write_path(t, path, v) is NotAnObject) == reaches_non_object(t, path),
    decreases path.len(),
{
    if path.len() > 1 {
        if let TreeView::Object(es) = t {
            if let Some(i) = first_key(es, path[0]) {
                lemma_non_object(es[i].1, path.drop_first(), v);
            }
        }
    }
}

/// The index of the first member named `key`.
fn find_key(es: &Vec<(String, SettingsTree)>, key: &str) -> (r: Option<usize>)
    ensures
        match first_key(entries_view(es@), key@) {
            Some(i) => r matches Some(j) && j == i && i < es.len(),
            None => r is None,
        },
{
    proof {
        lemma_entries_view(es@);
    }
    let ghost ev = entries_view(es@);
    let mut i: usize = 0;
    while i < es.len()
        invariant
            ev == entries_view(es@),
            ev.len() == es.len(),
            forall|j: int| 0 <= j < es.len() ==> #[trigger] ev[j] == (es@[j].0@, tree_view(es@[j].1)),
            i <= es.len(),
            forall|j: int| 0 <= j < i ==> (#[trigger] ev[j]).0 != key@,
        decreases es.len() - i,
    {
        if str_eq(es[i].0.as_str(), key) {
            proof {
                assert(ev[i as int].0 == key@);
                lemma_first_key(ev, key@, i as int);
            }
            return Some(i);
        }
        i = i + 1;
    }
    proof {
        assert forall|j: int| 0 <= j < ev.len() implies (#[trigger] ev[j]).0 != key@ by {}
    }
    None
}

/// `t[key] = v` on a tree that is an object or `null`.
fn put_member(t: SettingsTree, key: &String, v: SettingsTree) -> (r: SettingsTree)
    requires
        !(t is Scalar),
    ensures
        put(t@, key@, v@) == Some(r@),
{
    match t {
        SettingsTree::Object(mut es) => {
            let ghost old_es = es@;
            proof {
                lemma_entries_view(old_es);
            }
            let found = find_key(&es, key.as_str());
            let ghost vv = v@;
            match found {
                Some(i) => {
                    es.set(i, (key.clone(), v));
                    proof {
                        lemma_entries_view(es@);
                        assert(entries_view(es@) =~= entries_view(old_es).update(i as int, (key@, vv)));
                    }
                },
                None => {
                    es.push((key.clone(), v));
                    proof {
                        lemma_entries_view(es@);
                        assert(entries_view(es@) =~= entries_view(old_es).push((key@, vv)));
                    }
                },
            }
            SettingsTree::Object(es)
        },
        SettingsTree::Null => {
            let ghost vv = v@;
            let mut es: Vec<(String, SettingsTree)> = Vec::new();
            es.push((key.clone(), v));
            proof {
                lemma_entries_view(es@);
                assert(entries_view(es@) =~= seq![(key@, vv)]);
            }
            SettingsTree::Object(es)
        },
        SettingsTree::Scalar(_) => {
            proof {
                assert(false);
            }
            SettingsTree::Null
        },
    }
}

/// The segments of `parts` from `k` on, as a sequence of character sequences.
pub open spec fn segments_from(parts: Seq<String>, k: int) -> Seq<Seq<char>> {
    parts.skip(k).map_values(|p: String| p@)
}

/// Writes `v` at `parts[k..]` of `t`; `None` when a member before the last is missing.
#[verifier::rlimit(60)]
fn write_from(t: SettingsTree, parts: &Vec<String>, k: usize, v: SettingsTree) -> (r: Option<SettingsTree>)
    requires
        k < parts.len(),
        !(write_path(t@, segments_from(parts@, k as int), v@) is NotAnObject),
    ensures
        match write_path(t@, segments_from(parts@, k as int), v@) {
            PathWrite::Written(t2) => r matches Some(x) && x@ == t2,
            _ => r is None,
        },
    decreases parts.len() - k,
{
    let ghost path = segments_from(parts@, k as int);
    let ghost tv = t@;
    let ghost vv = v@;
    assert(path.len() == parts.len() - k);
    assert(path[0] == parts@[k as int]@);
    if k + 1 == parts.len() {
        let r = put_member(t, &parts[k], v);
        return Some(r);
    }
    assert(path.drop_first() =~= segments_from(parts@, k + 1));
    match t {
        SettingsTree::Object(mut es) => {
            let ghost old_es = es@;
            proof {
                lemma_entries_view(old_es);
            }
            match find_key(&es, parts[k].as_str()) {
                Some(i) => {
                    let (name, c) = es.remove(i);
                    assert(tree_view(c) == entries_view(old_es)[i as int].1);
                    let w = write_from(c, parts, k + 1, v);
                    match w {
                        Some(c2) => {
                            let ghost c2v = c2@;
                            es.insert(i, (name, c2));
                            proof {
                                lemma_entries_view(es@);
                                assert(es@ =~= old_es.update(i as int, (old_es[i as int].0, c2)));
                                assert(entries_view(es@) =~= entries_view(old_es).update(
                                    i as int,
                                    (entries_view(old_es)[i as int].0, c2v),
                                ));
                            }
                            Some(SettingsTree::Object(es))
                        },
                        None => None,
                    }
                },
                None => None,
            }
        },
        _ => None,
    }
}

/// The tree a dotted key ends at, walking `tree` member by member.
pub open spec fn get_value_spec(tree: TreeView, key: Seq<char>) -> Option<TreeView> {
    get_path(tree, key_segments(key))
}

impl SettingsTree {
    /// The value at the dotted `key` (`"general.language"`): each segment names a member of
    /// the object reached so far; `None` as soon as one does not.
    pub fn get_value(self, key: &str) -> (r: Option<SettingsTree>)
        ensures
            match get_value_spec(self@, key@) {
                Some(v) => r matches Some(x) && x@ == v,
                None => r is None,
            },
    {
        let parts = split_key_path(key);
        let ghost path = key_segments(key@);
        let ghost t0 = self@;
        assert(parts@.map_values(|p: String| p@) =~= path);
        let mut cur = self;
        let mut k: usize = 0;
        assert(path.skip(0) =~= path);
        while k < parts.len()
            invariant
                k <= parts.len(),
                path.len() == parts.len(),
                forall|j: int| 0 <= j < parts.len() ==> #[trigger] parts@[j]@ == path[j],
                get_path(t0, path) == get_path(cur@, path.skip(k as int)),
                t0 == self@,
                path == key_segments(key@),
            decreases parts.len() - k,
        {
            let ghost rest = path.skip(k as int);
            assert(rest[0] == path[k as int]);
            assert(rest.drop_first() =~= path.skip(k + 1));
            assert(get_path(cur@, rest) == match child(cur@, path[k as int]) {
                Some(c) => get_path(c, path.skip(k + 1)),
                None => None,
            });
            let next = match cur {
                SettingsTree::Object(mut es) => {
                    proof {
                        lemma_entries_view(es@);
                    }
                    let found = find_key(&es, parts[k].as_str());
                    match found {
                        Some(i) => {
                            let (_, c) = es.remove(i);
                            c
                        },
                        None => {
                            return None;
                        },
                    }
                },
                _ => {
                    return None;
                },
            };
            cur = next;
            k = k + 1;
        }
        assert(path.skip(k as int) =~= Seq::<Seq<char>>::empty());
        Some(cur)
    }

    /// Whether writing at the dotted `key` would reach a value that cannot take a member
    /// (a string, number, boolean or array): indexing one by name is not possible.
    pub fn set_value_reaches_non_object(&self, key: &str) -> (r: bool)
        ensures
            r == reaches_non_object(self@, key_segments(key@)),
    {
        let parts = split_key_path(key);
        let ghost path = key_segments(key@);
        proof {
            lemma_key_segments_nonempty(key@);
        }
        let mut cur: &SettingsTree = self;
        let mut k: usize = 0;
        assert(path.skip(0) =~= path);
        while k + 1 < parts.len()
            invariant
                1 <= parts.len(),
                k + 1 <= parts.len(),
                path.len() == parts.len(),
                path == key_segments(key@),
                forall|j: int| 0 <= j < parts.len() ==> #[trigger] parts@[j]@ == path[j],
                reaches_non_object(self@, path) == reaches_non_object(cur@, path.skip(k as int)),
            decreases parts.len() - k,
        {
            let ghost rest = path.skip(k as int);
            assert(rest[0] == path[k as int]);
            assert(rest.drop_first() =~= path.skip(k + 1));
            assert(reaches_non_object(cur@, rest) == match cur@ {
                TreeView::Object(es) => match first_key(es, path[k as int]) {
                    Some(i) => reaches_non_object(es[i].1, path.skip(k + 1)),
                    None => false,
                },
                _ => false,
            });
            match cur {
                SettingsTree::Object(es) => {
                    proof {
                        lemma_entries_view(es@);
                    }
                    match find_key(es, parts[k].as_str()) {
                        Some(i) => {
                            cur = &es[i].1;
                        },
                        None => {
                            return false;
                        },
                    }
                },
                _ => {
                    return false;
                },
            }
            k = k + 1;
        }
        assert(path.skip(k as int).len() == 1);
        match cur {
            SettingsTree::Scalar(_) => true,
            _ => false,
        }
    }

    /// Writes `value` at the dotted `key`: every segment but the last must name a member of
    /// the object reached so far, else the error reads `Key path not found: <key>`; the last
    /// segment then replaces or appends that member (a `null` becomes a one-member object).
    pub fn set_value(self, key: &str, value: SettingsTree) -> (r: Result<SettingsTree, String>)
        requires
            !reaches_non_object(self@, key_segments(key@)),
        ensures
            match write_path(self@, key_segments(key@), value@) {
                PathWrite::Written(t2) => r matches Ok(x) && x@ == t2,
                _ => r matches Err(m) && m@ == "Key path not found: "@ + key@,
            },
    {
        let parts = split_key_path(key);
        proof {
            lemma_key_segments_nonempty(key@);
            lemma_non_object(self@, key_segments(key@), value@);
        }
        assert(segments_from(parts@, 0) =~= key_segments(key@));
        match write_from(self, &parts, 0, value) {
            Some(t) => Ok(t),
            None => {
                let mut msg: Vec<char> = Vec::new();
                push_str(&mut msg, "Key path not found: ");
                push_str(&mut msg, key);
                proof {
                    reveal_strlit("Key path not found: ");
                }
                Err(string_from(&msg))
            },
        }
    }
}

} // verus!

verus! {

/// Some index names `key` only if a first such index exists.
proof fn lemma_first_witness(es: Seq<(Seq<char>, TreeView)>, key: Seq<char>, i: int)
    requires
        0 <= i < es.len(),
        es[i].0 == key,
    ensures
        exists|m: int| 0 <= m < es.len() && es[m].0 == key && forall|j: int| 0 <= j < m ==> (#[trigger] es[j]).0 != key,
    decreases i,
{
    if exists|j: int| 0 <= j < i && (#[trigger] es[j]).0 == key {
        let j = choose|j: int| 0 <= j < i && (#[trigger] es[j]).0 == key;
        lemma_first_witness(es, key, j);
    } else {
        assert(forall|j: int| 0 <= j < i ==> (#[trigger] es[j]).0 != key);
    }
}

/// What `first_key` gives: the first index with the name, or none at all.
pub proof fn lemma_first_key_props(es: Seq<(Seq<char>, TreeView)>, key: Seq<char>)
    ensures
        match first_key(es, key) {
            Some(i) => 0 <= i < es.len() && es[i].0 == key && forall|j: int| 0 <= j < i ==> (#[trigger] es[j]).0 != key,
            None => forall|j: int| 0 <= j < es.len() ==> (#[trigger] es[j]).0 != key,
        },
{
    if exists|i: int| 0 <= i < es.len() && (#[trigger] es[i]).0 == key {
        let i = choose|i: int| 0 <= i < es.len() && (#[trigger] es[i]).0 == key;
        lemma_first_witness(es, key, i);
    }
}

/// The member `key` is the same in two member lists that agree on every member so named,
/// the longer one naming no other.
proof fn lemma_child_unchanged(es: Seq<(Seq<char>, TreeView)>, es2: Seq<(Seq<char>, TreeView)>, key: Seq<char>)
    requires
        es.len() <= es2.len(),
        forall|j: int| 0 <= j < es.len() ==> ((#[trigger] es2[j]).0 == key <==> es[j].0 == key),
        forall|j: int| 0 <= j < es.len() && es[j].0 == key ==> #[trigger] es2[j] == es[j],
        forall|j: int| es.len() <= j < es2.len() ==> (#[trigger] es2[j]).0 != key,
    ensures
        child(TreeView::Object(es2), key) == child(TreeView::Object(es), key),
{
    lemma_first_key_props(es, key);
    lemma_first_key_props(es2, key);
    match first_key(es, key) {
        Some(i) => {
            lemma_first_key(es2, key, i);
        },
        None => {
            if let Some(k) = first_key(es2, key) {
                if k < es.len() {
                    assert(es[k].0 == key);
                }
            }
        },
    }
}

/// Reading a path right after writing it gives back the value written.
pub proof fn lemma_read_after_write(t: TreeView, path: Seq<Seq<char>>, v: TreeView)
    requires
        path.len() >= 1,
        write_path(t, path, v) is Written,
    ensures
        get_path(write_path(t, path, v)->0, path) == Some(v),
    decreases path.len(),
{
    let t2 = write_path(t, path, v)->0;
    let key = path[0];
    assert(path.drop_first().len() == path.len() - 1);
    if path.len() == 1 {
        match t {
            TreeView::Object(es) => {
                lemma_first_key_props(es, key);
                match first_key(es, key) {
                    Some(i) => {
                        lemma_first_key(es.update(i, (key, v)), key, i);
                    },
                    None => {
                        lemma_first_key(es.push((key, v)), key, es.len() as int);
                    },
                }
            },
            TreeView::Null => {
                lemma_first_key(seq![(key, v)], key, 0);
            },
            TreeView::Scalar(_) => {},
        }
        assert(path.drop_first() =~= Seq::<Seq<char>>::empty());
    } else {
        if let TreeView::Object(es) = t {
            lemma_first_key_props(es, key);
            let i = first_key(es, key)->0;
            let c2 = write_path(es[i].1, path.drop_first(), v)->0;
            lemma_read_after_write(es[i].1, path.drop_first(), v);
            lemma_first_key(es.update(i, (es[i].0, c2)), key, i);
        }
    }
}

/// A write leaves every path that parts from the written one at some segment as it was.
pub proof fn lemma_write_keeps_other_paths(
    t: TreeView,
    path: Seq<Seq<char>>,
    v: TreeView,
    other: Seq<Seq<char>>,
    d: int,
)
    requires
        write_path(t, path, v) is Written,
        0 <= d < path.len(),
        d < other.len(),
        other[d] != path[d],
        forall|e: int| 0 <= e < d ==> other[e] == path[e],
    ensures
        get_path(write_path(t, path, v)->0, other) == get_path(t, other),
    decreases d,
{
    let key = path[0];
    let okey = other[0];
    if d == 0 {
        if path.len() == 1 {
            match t {
                TreeView::Object(es) => {
                    lemma_first_key_props(es, key);
                    match first_key(es, key) {
                        Some(i) => {
                            lemma_child_unchanged(es, es.update(i, (key, v)), okey);
                        },
                        None => {
                            lemma_child_unchanged(es, es.push((key, v)), okey);
                        },
                    }
                },
                TreeView::Null => {
                    lemma_child_unchanged(Seq::empty(), seq![(key, v)], okey);
                },
                TreeView::Scalar(_) => {},
            }
        } else {
            if let TreeView::Object(es) = t {
                lemma_first_key_props(es, key);
                let i = first_key(es, key)->0;
                let c2 = write_path(es[i].1, path.drop_first(), v)->0;
                lemma_child_unchanged(es, es.update(i, (es[i].0, c2)), okey);
            }
        }
    } else {
        assert(okey == key);
        if let TreeView::Object(es) = t {
            lemma_first_key_props(es, key);
            let i = first_key(es, key)->0;
            let c2 = write_path(es[i].1, path.drop_first(), v)->0;
            assert forall|e: int| 0 <= e < d - 1 implies other.drop_first()[e] == path.drop_first()[e] by {
                assert(other[e + 1] == path[e + 1]);
            }
            lemma_write_keeps_other_paths(es[i].1, path.drop_first(), v, other.drop_first(), d - 1);
            lemma_first_key(es.update(i, (es[i].0, c2)), key, i);
        }
    }
}

/// Reading a key right after setting it gives back the value set.
pub proof fn lemma_get_after_set(t: TreeView, key: Seq<char>, v: TreeView)
    requires
        write_path(t, key_segments(key), v) is Written,
    ensures
        get_value_spec(write_path(t, key_segments(key), v)->0, key) == Some(v),
{
    lemma_key_segments_nonempty(key);
    lemma_read_after_write(t, key_segments(key), v);
}

} // verus!

verus! {

/// Setting a key leaves the value at every key that parts from it at some segment as it was.
pub proof fn lemma_set_keeps_other_keys(t: TreeView, key: Seq<char>, v: TreeView, other: Seq<char>, d: int)
    requires
        write_path(t, key_segments(key), v) is Written,
        0 <= d < key_segments(key).len(),
        d < key_segments(other).len(),
        key_segments(other)[d] != key_segments(key)[d],
        forall|e: int| 0 <= e < d ==> key_segments(other)[e] == key_segments(key)[e],
    ensures
        get_value_spec(write_path(t, key_segments(key), v)->0, other) == get_value_spec(t, other),
{
    lemma_write_keeps_other_paths(t, key_segments(key), v, key_segments(other), d);
}

} // verus!
