//! Values in the JSON notation, and how a patch changes one.

use crate::text;
use vstd::prelude::*;

verus! {

broadcast use vstd::string::group_string_axioms;

/// A value in the JSON notation. A number is kept as it is written. Where an object has a key more
/// than once, the first counts.
#[derive(Debug)]
pub enum Json {
    Null,
    Bool(bool),
    Number(String),
    Text(String),
    Array(Vec<Json>),
    Object(Vec<(String, Json)>),
}

/// The contents of a `Json`.
pub enum JsonView {
    Null,
    Bool(bool),
    Number(Seq<char>),
    Text(Seq<char>),
    Array(Seq<JsonView>),
    Object(Map<Seq<char>, JsonView>),
}

/// Where the key stands first among the members; their number where it does not.
pub open spec fn place(s: Seq<(String, Json)>, key: Seq<char>) -> int
    decreases s.len(),
{
    if s.len() == 0 {
        0
    } else {
        let before = place(s.drop_last(), key);
        if before < s.len() - 1 {
            before
        } else if s.last().0@ == key {
            s.len() - 1
        } else {
            s.len() as int
        }
    }
}

/// The contents of a value.
pub open spec fn json_view(j: Json) -> JsonView
    decreases j,
{
    match j {
        Json::Null => JsonView::Null,
        Json::Bool(b) => JsonView::Bool(b),
        Json::Number(t) => JsonView::Number(t@),
        Json::Text(t) => JsonView::Text(t@),
        Json::Array(v) => JsonView::Array(
            Seq::new(
                v@.len(),
                |i: int|
                    if 0 <= i < v@.len() {
                        json_view(v@[i])
                    } else {
                        JsonView::Null
                    },
            ),
        ),
        Json::Object(v) => JsonView::Object(
            Map::new(
                |k: Seq<char>| 0 <= place(v@, k) < v@.len(),
                |k: Seq<char>|
                    if 0 <= place(v@, k) < v@.len() {
                        json_view(v@[place(v@, k)].1)
                    } else {
                        JsonView::Null
                    },
            ),
        ),
    }
}

impl View for Json {
    type V = JsonView;

    open spec fn view(&self) -> JsonView {
        json_view(*self)
    }
}

/// The members of an object, by their keys.
pub open spec fn members(s: Seq<(String, Json)>) -> Map<Seq<char>, JsonView> {
    Map::new(|k: Seq<char>| 0 <= place(s, k) < s.len(), |k: Seq<char>| json_view(s[place(s, k)].1))
}

/// The members of a value; none where it is no object.
pub open spec fn object_members(v: JsonView) -> Map<Seq<char>, JsonView> {
    match v {
        JsonView::Object(m) => m,
        _ => Map::empty(),
    }
}

/// A value after a patch. A patch that is an object changes the members that it names: one whose
/// value is null goes, any other is patched in turn. Any other patch takes the place of the value.
pub open spec fn merged(a: JsonView, b: JsonView) -> JsonView
    decreases b,
{
    match b {
        JsonView::Object(m) => {
            let old_members = object_members(a);
            JsonView::Object(
                Map::new(
                    |k: Seq<char>|
                        if m.contains_key(k) {
                            !(m[k] is Null)
                        } else {
                            old_members.contains_key(k)
                        },
                    |k: Seq<char>|
                        if m.contains_key(k) {
                            merged(
                                if old_members.contains_key(k) {
                                    old_members[k]
                                } else {
                                    JsonView::Null
                                },
                                m[k],
                            )
                        } else {
                            old_members[k]
                        },
                ),
            )
        },
        _ => b,
    }
}

/// The place is that of the key, and the first; or the key does not occur.
proof fn lemma_place(s: Seq<(String, Json)>, key: Seq<char>)
    ensures
        0 <= place(s, key) <= s.len(),
        place(s, key) < s.len() ==> s[place(s, key)].0@ == key,
        forall|i: int| 0 <= i < place(s, key) ==> (#[trigger] s[i]).0@ != key,
    decreases s.len(),
{
    if s.len() > 0 {
        lemma_place(s.drop_last(), key);
        assert forall|i: int| 0 <= i < place(s, key) implies (#[trigger] s[i]).0@ != key by {
            if i < s.len() - 1 {
                assert(s.drop_last()[i] == s[i]);
            }
        }
    }
}

/// A member that is put behind the others counts if its key is new.
pub(crate) proof fn lemma_pushed(s: Seq<(String, Json)>, e: (String, Json))
    ensures
        members(s.push(e)) == (if members(s).contains_key(e.0@) {
            members(s)
        } else {
            members(s).insert(e.0@, json_view(e.1))
        }),
{
    let t = s.push(e);
    assert(t.drop_last() =~= s);
    let want = if members(s).contains_key(e.0@) {
        members(s)
    } else {
        members(s).insert(e.0@, json_view(e.1))
    };
    assert forall|k: Seq<char>| #[trigger] members(t).contains_key(k) <==> want.contains_key(k) by {
        lemma_place(s, k);
        lemma_place(t, k);
    }
    assert forall|k: Seq<char>| #[trigger] members(t).contains_key(k) implies members(t)[k]
        == want[k] by {
        lemma_place(s, k);
        lemma_place(t, k);
        lemma_place(s, e.0@);
    }
    assert(members(t) =~= want);
}

pub(crate) proof fn lemma_no_members()
    ensures
        members(Seq::empty()) == Map::<Seq<char>, JsonView>::empty(),
{
    assert(members(Seq::empty()) =~= Map::<Seq<char>, JsonView>::empty());
}

/// The members of an object are its contents.
pub(crate) proof fn lemma_object(v: Vec<(String, Json)>)
    ensures
        json_view(Json::Object(v)) == JsonView::Object(members(v@)),
{
    assert(json_view(Json::Object(v))->Object_0 =~= members(v@));
}

/// Where the key stands first among the members; their number where it does not.
fn find(s: &Vec<(String, Json)>, key: &str) -> (r: usize)
    ensures
        r == place(s@, key@),
        r <= s@.len(),
        members(s@).contains_key(key@) == (r < s@.len()),
        r < s@.len() ==> members(s@)[key@] == json_view(s@[r as int].1),
{
    proof {
        lemma_place(s@, key@);
    }
    let mut i: usize = 0;
    while i < s.len()
        invariant
            i <= s@.len(),
            forall|k: int| 0 <= k < i ==> (#[trigger] s@[k]).0@ != key@,
        decreases s@.len() - i,
    {
        if text::same_text(s[i].0.as_str(), key) {
            proof {
                lemma_place(s@, key@);
                let p = place(s@, key@);
                if p < i {
                    assert(s@[p].0@ != key@);
                }
            }
            return i;
        }
        i += 1;
    }
    proof {
        let p = place(s@, key@);
        if p < s@.len() {
            assert(s@[p].0@ != key@);
        }
    }
    i
}

fn copy_items(s: &Vec<Json>) -> (r: Vec<Json>)
    ensures
        r@.len() == s@.len(),
        forall|k: int| 0 <= k < r@.len() ==> json_view(#[trigger] r@[k]) == json_view(s@[k]),
    decreases s,
{
    let mut out: Vec<Json> = Vec::new();
    let mut i: usize = 0;
    while i < s.len()
        invariant
            i <= s@.len(),
            out@.len() == i,
            forall|k: int| 0 <= k < i ==> json_view(#[trigger] out@[k]) == json_view(s@[k]),
        decreases s@.len() - i,
    {
        out.push(s[i].copy());
        i += 1;
    }
    out
}

fn copy_members(s: &Vec<(String, Json)>) -> (r: Vec<(String, Json)>)
    ensures
        members(r@) == members(s@),
    decreases s,
{
    let mut out: Vec<(String, Json)> = Vec::new();
    let mut i: usize = 0;
    while i < s.len()
        invariant
            i <= s@.len(),
            members(out@) == members(s@.subrange(0, i as int)),
        decreases s@.len() - i,
    {
        let e = (s[i].0.clone(), s[i].1.copy());
        proof {
            let before = s@.subrange(0, i as int);
            assert(s@.subrange(0, i + 1) =~= before.push(s@[i as int]));
            lemma_pushed(before, s@[i as int]);
            lemma_pushed(out@, e);
        }
        out.push(e);
        i += 1;
    }
    assert(s@.subrange(0, s@.len() as int) =~= s@);
    out
}

impl Json {
    /// A value with the same contents.
    pub fn copy(&self) -> (r: Json)
        ensures
            r@ == self@,
        decreases self,
    {
        match self {
            Json::Null => Json::Null,
            Json::Bool(b) => Json::Bool(*b),
            Json::Number(t) => Json::Number(t.clone()),
            Json::Text(t) => Json::Text(t.clone()),
            Json::Array(v) => {
                let out = copy_items(v);
                let r = Json::Array(out);
                assert(r@->Array_0 =~= self@->Array_0);
                r
            },
            Json::Object(v) => {
                let out = copy_members(v);
                proof {
                    lemma_object(*v);
                    lemma_object(out);
                }
                Json::Object(out)
            },
        }
    }

    /// The member of an object with a key; none where there is none, or the value is no object.
    pub fn member(&self, key: &str) -> (r: Option<&Json>)
        ensures
            match r {
                Some(j) => object_members(self@).contains_key(key@) && object_members(self@)[key@]
                    == j@,
                None => !object_members(self@).contains_key(key@),
            },
    {
        match self {
            Json::Object(v) => {
                proof {
                    lemma_object(*v);
                }
                let i: usize = find(v, key);
                if i < v.len() {
                    Some(&v[i].1)
                } else {
                    None
                }
            },
            _ => None,
        }
    }

    /// The text of a value; none where it is no text.
    pub fn as_text(&self) -> (r: Option<&String>)
        ensures
            match r {
                Some(t) => self@ == JsonView::Text(t@),
                None => !(self@ is Text),
            },
    {
        match self {
            Json::Text(t) => Some(t),
            _ => None,
        }
    }
}

/// The members of an object after a patch with the members `b`.
pub open spec fn merged_members(
    a: Map<Seq<char>, JsonView>,
    b: Map<Seq<char>, JsonView>,
) -> Map<Seq<char>, JsonView> {
    merged(JsonView::Object(a), JsonView::Object(b))->Object_0
}

/// The members of `a` that a patch with the members `b` leaves, patched.
spec fn surviving(a: Map<Seq<char>, JsonView>, b: Map<Seq<char>, JsonView>) -> Map<
    Seq<char>,
    JsonView,
> {
    Map::new(
        |k: Seq<char>| a.contains_key(k) && !(b.contains_key(k) && b[k] is Null),
        |k: Seq<char>|
            if b.contains_key(k) {
                merged(a[k], b[k])
            } else {
                a[k]
            },
    )
}

/// The members of `b` that are new to `a`, as a patch makes them out of nothing.
spec fn fresh(a: Map<Seq<char>, JsonView>, b: Map<Seq<char>, JsonView>) -> Map<
    Seq<char>,
    JsonView,
> {
    Map::new(
        |k: Seq<char>| b.contains_key(k) && !(b[k] is Null) && !a.contains_key(k),
        |k: Seq<char>| merged(JsonView::Null, b[k]),
    )
}

proof fn lemma_parts_make_whole(a: Map<Seq<char>, JsonView>, b: Map<Seq<char>, JsonView>)
    ensures
        merged_members(a, b) == surviving(a, b).union_prefer_right(fresh(a, b)),
{
    assert(merged_members(a, b) =~= surviving(a, b).union_prefer_right(fresh(a, b)));
}

/// What a patch leaves of one more member.
proof fn lemma_one_more_survivor(
    s: Seq<(String, Json)>,
    e: (String, Json),
    b: Map<Seq<char>, JsonView>,
)
    ensures
        ({
            let before = surviving(members(s), b);
            let after = surviving(members(s.push(e)), b);
            let k = e.0@;
            if members(s).contains_key(k) || (b.contains_key(k) && b[k] is Null) {
                after == before
            } else {
                !before.contains_key(k) && after == before.insert(
                    k,
                    if b.contains_key(k) {
                        merged(json_view(e.1), b[k])
                    } else {
                        json_view(e.1)
                    },
                )
            }
        }),
{
    lemma_pushed(s, e);
    let before = surviving(members(s), b);
    let after = surviving(members(s.push(e)), b);
    let k = e.0@;
    if members(s).contains_key(k) || (b.contains_key(k) && b[k] is Null) {
        assert(after =~= before);
    } else {
        assert(after =~= before.insert(
            k,
            if b.contains_key(k) {
                merged(json_view(e.1), b[k])
            } else {
                json_view(e.1)
            },
        ));
    }
}

/// What one more member adds to the new ones.
proof fn lemma_one_more_fresh(
    a: Map<Seq<char>, JsonView>,
    s: Seq<(String, Json)>,
    e: (String, Json),
)
    ensures
        ({
            let before = fresh(a, members(s));
            let after = fresh(a, members(s.push(e)));
            let k = e.0@;
            if members(s).contains_key(k) || json_view(e.1) is Null || a.contains_key(k) {
                after == before
            } else {
                !before.contains_key(k) && after == before.insert(
                    k,
                    merged(JsonView::Null, json_view(e.1)),
                )
            }
        }),
{
    lemma_pushed(s, e);
    let before = fresh(a, members(s));
    let after = fresh(a, members(s.push(e)));
    let k = e.0@;
    if members(s).contains_key(k) || json_view(e.1) is Null || a.contains_key(k) {
        assert(after =~= before);
    } else {
        assert(after =~= before.insert(k, merged(JsonView::Null, json_view(e.1))));
    }
}

fn is_null(j: &Json) -> (r: bool)
    ensures
        r == (j@ is Null),
{
    match j {
        Json::Null => true,
        _ => false,
    }
}

fn merge_members(a: &Vec<(String, Json)>, b: &Vec<(String, Json)>) -> (r: Vec<(String, Json)>)
    ensures
        members(r@) == merged_members(members(a@), members(b@)),
    decreases b,
{
    let ghost ma = members(a@);
    let ghost mb = members(b@);
    let mut out: Vec<(String, Json)> = Vec::new();
    let mut i: usize = 0;
    proof {
        lemma_no_members();
        assert(a@.subrange(0, 0) =~= Seq::empty());
        assert(surviving(members(a@.subrange(0, 0)), mb) =~= Map::empty());
    }
    while i < a.len()
        invariant
            i <= a@.len(),
            mb == members(b@),
            members(out@) == surviving(members(a@.subrange(0, i as int)), mb),
        decreases a@.len() - i,
    {
        let ghost before = a@.subrange(0, i as int);
        proof {
            assert(a@.subrange(0, i + 1) =~= before.push(a@[i as int]));
            lemma_one_more_survivor(before, a@[i as int], mb);
        }
        let at: usize = find(b, a[i].0.as_str());
        if at < b.len() {
            if !is_null(&b[at].1) {
                let e = (a[i].0.clone(), merge(&a[i].1, &b[at].1));
                proof {
                    lemma_pushed(out@, e);
                }
                out.push(e);
            }
        } else {
            let e = (a[i].0.clone(), a[i].1.copy());
            proof {
                lemma_pushed(out@, e);
            }
            out.push(e);
        }
        i += 1;
    }
    assert(a@.subrange(0, a@.len() as int) =~= a@);
    let mut j: usize = 0;
    let ghost kept = surviving(ma, mb);
    proof {
        assert(b@.subrange(0, 0) =~= Seq::empty());
        assert(fresh(ma, members(b@.subrange(0, 0))) =~= Map::empty());
        assert(kept.union_prefer_right(Map::empty()) =~= kept);
    }
    while j < b.len()
        invariant
            j <= b@.len(),
            ma == members(a@),
            kept == surviving(ma, mb),
            members(out@) == kept.union_prefer_right(fresh(ma, members(b@.subrange(0, j as int)))),
        decreases b@.len() - j,
    {
        let ghost before = b@.subrange(0, j as int);
        proof {
            assert(b@.subrange(0, j + 1) =~= before.push(b@[j as int]));
            lemma_one_more_fresh(ma, before, b@[j as int]);
        }
        let in_a: usize = find(a, b[j].0.as_str());
        if in_a == a.len() && !is_null(&b[j].1) {
            let e = (b[j].0.clone(), merge(&Json::Null, &b[j].1));
            proof {
                lemma_pushed(out@, e);
                let was = fresh(ma, members(before));
                let now = fresh(ma, members(before.push(b@[j as int])));
                let k = b@[j as int].0@;
                lemma_place(b@, k);
                lemma_place(before, k);
                if place(before, k) < before.len() {
                    assert(b@[place(before, k)] == before[place(before, k)]);
                } else if place(b@, k) < j {
                    assert(before[place(b@, k)] == b@[place(b@, k)]);
                }
                assert(!kept.contains_key(k));
                assert(kept.union_prefer_right(was.insert(k, json_view(e.1)))
                    =~= kept.union_prefer_right(was).insert(k, json_view(e.1)));
            }
            let first: usize = find(b, b[j].0.as_str());
            if first == j {
                out.push(e);
            }
        }
        j += 1;
    }
    assert(b@.subrange(0, b@.len() as int) =~= b@);
    proof {
        lemma_parts_make_whole(ma, mb);
    }
    out
}

/// A value after a patch.
fn merge(a: &Json, b: &Json) -> (r: Json)
    ensures
        r@ == merged(a@, b@),
    decreases b,
{
    match b {
        Json::Object(bs) => {
            proof {
                lemma_object(*bs);
            }
            match a {
                Json::Object(old_members) => {
                    let out = merge_members(old_members, bs);
                    proof {
                        lemma_object(*old_members);
                        lemma_object(out);
                    }
                    Json::Object(out)
                },
                _ => {
                    let nothing: Vec<(String, Json)> = Vec::new();
                    let out = merge_members(&nothing, bs);
                    proof {
                        lemma_no_members();
                        lemma_object(out);
                        assert(merged(a@, b@)->Object_0 =~= merged_members(
                            Map::empty(),
                            members(bs@),
                        ));
                    }
                    Json::Object(out)
                },
            }
        },
        _ => b.copy(),
    }
}

/// Patches a value.
pub fn json_merge(a: &mut Json, b: &Json)
    ensures
        final(a)@ == merged(old(a)@, b@),
{
    let r = merge(a, b);
    *a = r;
}

} // verus!
