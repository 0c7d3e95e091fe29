//! JSON values as far as the files of a project need them, and the merging
//! of one value into another.

use crate::text::str_eq;
use vstd::prelude::*;
use vstd::string::StringExecFns;

verus! {

/// A JSON value.
#[derive(Debug)]
pub enum Json {
    Null,
    Bool(bool),
    /// A number, by its text.
    Number(String),
    Text(String),
    Array(Vec<Json>),
    /// The members, in the order in which they were added.
    Object(Vec<(String, Json)>),
}

/// A JSON value as plain data.
pub enum JsonView {
    Null,
    Bool(bool),
    Number(Seq<char>),
    Text(Seq<char>),
    Array(Seq<JsonView>),
    Object(Seq<(Seq<char>, JsonView)>),
}

/// The items of an array as plain data.
pub open spec fn items_view(items: Seq<Json>) -> Seq<JsonView>
    decreases items,
{
    Seq::new(
        items.len(),
        |i: int|
            if 0 <= i < items.len() {
                items[i]@
            } else {
                JsonView::Null
            },
    )
}

/// The members of an object as plain data.
pub open spec fn members_view(members: Seq<(String, Json)>) -> Seq<(Seq<char>, JsonView)>
    decreases members,
{
    Seq::new(
        members.len(),
        |i: int|
            if 0 <= i < members.len() {
                (members[i].0@, members[i].1@)
            } else {
                (Seq::empty(), JsonView::Null)
            },
    )
}

impl View for Json {
    type V = JsonView;

    open spec fn view(&self) -> JsonView
        decreases self,
    {
        match self {
            Json::Null => JsonView::Null,
            Json::Bool(b) => JsonView::Bool(*b),
            Json::Number(n) => JsonView::Number(n@),
            Json::Text(s) => JsonView::Text(s@),
            Json::Array(items) => JsonView::Array(items_view(items@)),
            Json::Object(members) => JsonView::Object(members_view(members@)),
        }
    }
}

/// The place of the first member with the key `key`, if there is one.
pub open spec fn member_at(members: Seq<(Seq<char>, JsonView)>, key: Seq<char>) -> Option<int> {
    if exists|i: int| is_first_member(members, key, i) {
        Some(choose|i: int| is_first_member(members, key, i))
    } else {
        None
    }
}

/// The member at place `i` is the first with the key `key`.
pub open spec fn is_first_member(members: Seq<(Seq<char>, JsonView)>, key: Seq<char>, i: int) -> bool {
    &&& 0 <= i < members.len()
    &&& members[i].0 == key
    &&& forall|j: int| 0 <= j < i ==> (#[trigger] members[j]).0 != key
}

/// What `a` is after `b` was merged into it: of two objects, the members of
/// the first, each merged with the member of the same key of the second,
/// followed by the members that only the second has; of two arrays, the items
/// of both; of anything else, the second value.
pub open spec fn merged(a: JsonView, b: JsonView) -> JsonView
    decreases b, 1nat, 0nat,
{
    match (a, b) {
        (JsonView::Object(ma), JsonView::Object(mb)) => JsonView::Object(merged_members(ma, b, mb.len())),
        (JsonView::Array(x), JsonView::Array(y)) => JsonView::Array(x + y),
        (_, b) => b,
    }
}

/// The members `ma` after the first `k` members of the object `b` were
/// merged into them, one after the other.
pub open spec fn merged_members(ma: Seq<(Seq<char>, JsonView)>, b: JsonView, k: nat) -> Seq<(Seq<char>, JsonView)>
    decreases b, 0nat, k,
{
    match b {
        JsonView::Object(mb) => if k == 0 || k > mb.len() {
            ma
        } else {
            let so_far = merged_members(ma, b, (k - 1) as nat);
            let (key, value) = mb[k - 1];
            match member_at(so_far, key) {
                Some(i) => so_far.update(i, (key, merged(so_far[i].1, value))),
                None => so_far.push((key, merged(JsonView::Null, value))),
            }
        },
        _ => ma,
    }
}

/// The view of members after one of them was replaced.
proof fn lemma_members_update(members: Seq<(String, Json)>, i: int, key: String, value: Json)
    requires
        0 <= i < members.len(),
    ensures
        members_view(members.update(i, (key, value))) == members_view(members).update(i, (key@, value@)),
{
    assert(members_view(members.update(i, (key, value))) =~= members_view(members).update(i, (key@, value@)));
}

/// The view of members after one was added.
proof fn lemma_members_push(members: Seq<(String, Json)>, key: String, value: Json)
    ensures
        members_view(members.push((key, value))) == members_view(members).push((key@, value@)),
{
    assert(members_view(members.push((key, value))) =~= members_view(members).push((key@, value@)));
}

/// The view of the items of two arrays, one after the other.
proof fn lemma_items_joined(x: Seq<Json>, y: Seq<Json>)
    ensures
        items_view(x + y) == items_view(x) + items_view(y),
{
    assert(items_view(x + y) =~= items_view(x) + items_view(y));
}

/// The place of the first member of `members` with the key `key`.
pub fn find_member(members: &Vec<(String, Json)>, key: &String) -> (found: Option<usize>)
    ensures
        match found {
            Some(i) => member_at(members_view(members@), key@) == Some(i as int) && i < members@.len(),
            None => member_at(members_view(members@), key@).is_none(),
        },
{
    let ghost view = members_view(members@);
    let mut i: usize = 0;
    while i < members.len()
        invariant
            i <= members@.len(),
            view == members_view(members@),
            forall|j: int| 0 <= j < i ==> (#[trigger] view[j]).0 != key@,
        decreases members@.len() - i,
    {
        if str_eq(members[i].0.as_str(), key.as_str()) {
            proof {
                assert(is_first_member(view, key@, i as int));
                let c = choose|c: int| is_first_member(view, key@, c);
                assert(c == i) by {
                    if c < i {
                        assert(view[c].0 != key@);
                    }
                    if i < c {
                        assert(view[i as int].0 != key@);
                    }
                }
            }
            return Some(i);
        }
        i += 1;
    }
    proof {
        assert forall|c: int| !is_first_member(view, key@, c) by {
            if 0 <= c < view.len() {
                assert(view[c].0 != key@);
            }
        }
    }
    None
}

/// Members of an object, none yet.
pub fn no_members() -> (r: Vec<(String, Json)>)
    ensures
        members_view(r@) == Seq::<(Seq<char>, JsonView)>::empty(),
{
    let r: Vec<(String, Json)> = Vec::new();
    assert(members_view(r@) =~= Seq::<(Seq<char>, JsonView)>::empty());
    r
}

/// Adds the member `key` with the value `value` after the others.
pub fn put(members: &mut Vec<(String, Json)>, key: &str, value: Json)
    ensures
        members_view(final(members)@) == members_view(old(members)@).push((key@, value@)),
{
    let k = String::from_str(key);
    proof {
        lemma_members_push(members@, k, value);
    }
    members.push((k, value));
}

/// Adds the member `key` with the text `value` after the others.
pub fn put_text(members: &mut Vec<(String, Json)>, key: &str, value: &str)
    ensures
        members_view(final(members)@) == members_view(old(members)@).push((key@, JsonView::Text(value@))),
{
    put(members, key, Json::Text(String::from_str(value)));
}

/// Adds the member `key` with the value `value`, true or false, after the others.
pub fn put_flag(members: &mut Vec<(String, Json)>, key: &str, value: bool)
    ensures
        members_view(final(members)@) == members_view(old(members)@).push((key@, JsonView::Bool(value))),
{
    put(members, key, Json::Bool(value));
}

/// The object with these members.
pub fn object(members: Vec<(String, Json)>) -> (r: Json)
    ensures
        r@ == JsonView::Object(members_view(members@)),
{
    Json::Object(members)
}

/// An object with one member.
pub fn object_of(key: &str, value: Json) -> (r: Json)
    ensures
        r@ == JsonView::Object(seq![(key@, value@)]),
{
    let mut members = no_members();
    put(&mut members, key, value);
    object(members)
}

/// An array of texts.
pub fn texts(items: &Vec<String>) -> (r: Json)
    ensures
        r@ == JsonView::Array(items@.map_values(|s: String| JsonView::Text(s@))),
{
    let mut out: Vec<Json> = Vec::new();
    let mut i: usize = 0;
    while i < items.len()
        invariant
            i <= items@.len(),
            out@.len() == i,
            forall|j: int| 0 <= j < i ==> (#[trigger] out@[j])@ == JsonView::Text(items@[j]@),
        decreases items@.len() - i,
    {
        out.push(Json::Text(items[i].clone()));
        i += 1;
    }
    assert(items_view(out@) =~= items@.map_values(|s: String| JsonView::Text(s@)));
    Json::Array(out)
}

/// An array with one text.
pub fn text_list(item: &str) -> (r: Json)
    ensures
        r@ == JsonView::Array(seq![JsonView::Text(item@)]),
{
    let mut out: Vec<Json> = Vec::new();
    out.push(Json::Text(String::from_str(item)));
    assert(items_view(out@) =~= seq![JsonView::Text(item@)]);
    Json::Array(out)
}

impl Json {
    /// Whether two values are the same: the same kind with the same content,
    /// the members of an object in the same order.
    pub fn same_as(&self, other: &Json) -> (r: bool)
        ensures
            r == (self@ == other@),
        decreases self,
    {
        match (self, other) {
            (Json::Null, Json::Null) => true,
            (Json::Bool(x), Json::Bool(y)) => *x == *y,
            (Json::Number(x), Json::Number(y)) => str_eq(x.as_str(), y.as_str()),
            (Json::Text(x), Json::Text(y)) => str_eq(x.as_str(), y.as_str()),
            (Json::Array(x), Json::Array(y)) => {
                if x.len() != y.len() {
                    assert(items_view(x@).len() != items_view(y@).len());
                    return false;
                }
                let mut i: usize = 0;
                while i < x.len()
                    invariant
                        *self == Json::Array(*x),
                        *other == Json::Array(*y),
                        i <= x@.len(),
                        x@.len() == y@.len(),
                        forall|j: int| 0 <= j < i ==> (#[trigger] x@[j])@ == y@[j]@,
                    decreases x@.len() - i,
                {
                    proof {
                        assert(self->Array_0 == *x);
                        assert(decreases_to!(*x => x[i as int]));
                    }
                    if !x[i].same_as(&y[i]) {
                        assert(items_view(x@)[i as int] != items_view(y@)[i as int]);
                        return false;
                    }
                    i += 1;
                }
                assert(items_view(x@) =~= items_view(y@));
                true
            },
            (Json::Object(x), Json::Object(y)) => {
                if x.len() != y.len() {
                    assert(members_view(x@).len() != members_view(y@).len());
                    return false;
                }
                let mut i: usize = 0;
                while i < x.len()
                    invariant
                        *self == Json::Object(*x),
                        *other == Json::Object(*y),
                        i <= x@.len(),
                        x@.len() == y@.len(),
                        forall|j: int| 0 <= j < i ==> (#[trigger] x@[j]).0@ == y@[j].0@ && x@[j].1@ == y@[j].1@,
                    decreases x@.len() - i,
                {
                    proof {
                        assert(self->Object_0 == *x);
                        assert(decreases_to!(*x => x[i as int]));
                        assert(decreases_to!(x[i as int] => x[i as int].1));
                    }
                    if !str_eq(x[i].0.as_str(), y[i].0.as_str()) || !x[i].1.same_as(&y[i].1) {
                        assert(members_view(x@)[i as int] != members_view(y@)[i as int]);
                        return false;
                    }
                    i += 1;
                }
                assert(members_view(x@) =~= members_view(y@));
                true
            },
            _ => false,
        }
    }
}

/// `b` merged into `a`, as a new value.
pub fn merge_values(a: Json, b: Json) -> (r: Json)
    ensures
        r@ == merged(a@, b@),
    decreases b,
{
    let ghost given = b;
    match (a, b) {
        (Json::Object(ma), Json::Object(mb)) => {
            let ghost whole = mb@;
            let mut acc = ma;
            let mut rest = mb;
            let mut k: usize = 0;
            assert(whole.len() == rest.len());
            while rest.len() > 0
                invariant
                    given == b,
                    given == Json::Object(mb),
                    whole.len() <= usize::MAX,
                    whole == mb@,
                    k + rest@.len() == whole.len(),
                    rest@ == whole.subrange(k as int, whole.len() as int),
                    given@ == JsonView::Object(members_view(whole)),
                    members_view(acc@) == merged_members(members_view(ma@), given@, k as nat),
                decreases rest@.len(),
            {
                let (key, value) = rest.remove(0);
                match find_member(&acc, &key) {
                    Some(i) => {
                        let ghost held = acc@;
                        let (_, earlier) = acc.remove(i);
                        let m = merge_values(earlier, value);
                        proof {
                            lemma_members_update(held, i as int, key, m);
                        }
                        acc.insert(i, (key, m));
                    },
                    None => {
                        let m = merge_values(Json::Null, value);
                        proof {
                            lemma_members_push(acc@, key, m);
                        }
                        acc.push((key, m));
                    },
                }
                k += 1;
            }
            Json::Object(acc)
        },
        (Json::Array(x), Json::Array(y)) => {
            let mut items = x;
            let mut more = y;
            proof {
                lemma_items_joined(x@, y@);
            }
            items.append(&mut more);
            Json::Array(items)
        },
        (_, b) => b,
    }
}

/// Merges `b` into `a`.
pub fn json_merge(a: &mut Json, b: Json)
    ensures
        final(a)@ == merged(old(a)@, b@),
{
    let mut held = Json::Null;
    core::mem::swap(a, &mut held);
    *a = merge_values(held, b);
}

} // verus!
