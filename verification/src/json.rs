//! JSON values as the library reads them: whether one counts as true, and
//! merging one value into another.
use vstd::prelude::*;

verus! {

/// A JSON value. An object lists its members in order.
pub enum JsonValue {
    Null,
    Bool(bool),
    /// A number, as the text that writes it.
    Number(String),
    String(String),
    Array(Vec<JsonValue>),
    Object(Vec<(String, JsonValue)>),
}

/// The abstract value of a [`JsonValue`].
pub enum JsonView {
    Null,
    Bool(bool),
    Number(Seq<char>),
    String(Seq<char>),
    Array(Seq<JsonView>),
    Object(Seq<(Seq<char>, JsonView)>),
}

/// The abstract value of `j`.
pub open spec fn json_view(j: JsonValue) -> JsonView
    decreases j,
{
    match j {
        JsonValue::Null => JsonView::Null,
        JsonValue::Bool(b) => JsonView::Bool(b),
        JsonValue::Number(n) => JsonView::Number(n@),
        JsonValue::String(s) => JsonView::String(s@),
        JsonValue::Array(v) => JsonView::Array(item_views(v@)),
        JsonValue::Object(m) => JsonView::Object(member_views(m@)),
    }
}

/// The abstract values of the items of an array.
pub open spec fn item_views(s: Seq<JsonValue>) -> Seq<JsonView>
    decreases s,
{
    if s.len() == 0 {
        Seq::empty()
    } else {
        item_views(s.subrange(0, s.len() - 1)).push(json_view(s[s.len() - 1]))
    }
}

/// The names and abstract values of the members of an object.
pub open spec fn member_views(s: Seq<(String, JsonValue)>) -> Seq<(Seq<char>, JsonView)>
    decreases s,
{
    if s.len() == 0 {
        Seq::empty()
    } else {
        member_views(s.subrange(0, s.len() - 1)).push(
            (s[s.len() - 1].0@, json_view(s[s.len() - 1].1)),
        )
    }
}

impl View for JsonValue {
    type V = JsonView;

    open spec fn view(&self) -> JsonView {
        json_view(*self)
    }
}

/// The position of the first member of `m` named `k`, if there is one.
pub open spec fn member_index(m: Seq<(Seq<char>, JsonView)>, k: Seq<char>) -> Option<int>
    decreases m.len(),
{
    if m.len() == 0 {
        None
    } else if m[0].0 == k {
        Some(0)
    } else {
        match member_index(m.drop_first(), k) {
            Some(i) => Some(i + 1),
            None => None,
        }
    }
}

/// `b` merged into `a`: where both are objects, each member of `b` is
/// merged into the member of `a` of the same name, or added at the end
/// where `a` has none; otherwise `b` takes the place of `a`.
pub open spec fn merge_view(a: JsonView, b: JsonView) -> JsonView
    decreases b, 0nat,
{
    match b {
        JsonView::Object(bm) => match a {
            JsonView::Object(am) => JsonView::Object(merge_members(am, bm, bm.len())),
            _ => b,
        },
        _ => b,
    }
}

/// The members `am` with the first `n` members of `bm` merged in, in order.
pub open spec fn merge_members(
    am: Seq<(Seq<char>, JsonView)>,
    bm: Seq<(Seq<char>, JsonView)>,
    n: nat,
) -> Seq<(Seq<char>, JsonView)>
    decreases bm, n,
{
    if n == 0 || n > bm.len() {
        am
    } else {
        let acc = merge_members(am, bm, (n - 1) as nat);
        let k = bm[n - 1].0;
        match member_index(acc, k) {
            Some(i) => acc.update(i, (k, merge_view(acc[i].1, bm[n - 1].1))),
            None => acc.push((k, bm[n - 1].1)),
        }
    }
}

/// The value counts as true: the string `1` or `true`, the number `1`, or
/// `true` itself.
pub open spec fn truthy(v: JsonView) -> bool {
    match v {
        JsonView::String(s) => s == "1"@ || s == "true"@,
        JsonView::Number(n) => n == "1"@,
        JsonView::Bool(b) => b,
        _ => false,
    }
}

proof fn lemma_item_views(s: Seq<JsonValue>)
    ensures
        item_views(s).len() == s.len(),
        forall|i: int| 0 <= i < s.len() ==> #[trigger] item_views(s)[i] == json_view(s[i]),
    decreases s.len(),
{
    if s.len() > 0 {
        let t = s.subrange(0, s.len() - 1);
        lemma_item_views(t);
        assert forall|i: int| 0 <= i < s.len() implies #[trigger] item_views(s)[i] == json_view(s[i]) by {
            if i < s.len() - 1 {
                assert(t[i] == s[i]);
            }
        }
    }
}

proof fn lemma_member_views(s: Seq<(String, JsonValue)>)
    ensures
        member_views(s).len() == s.len(),
        forall|i: int|
            0 <= i < s.len() ==> #[trigger] member_views(s)[i] == (s[i].0@, json_view(s[i].1)),
    decreases s.len(),
{
    if s.len() > 0 {
        let t = s.subrange(0, s.len() - 1);
        lemma_member_views(t);
        assert forall|i: int|
            0 <= i < s.len() implies #[trigger] member_views(s)[i] == (s[i].0@, json_view(s[i].1)) by {
            if i < s.len() - 1 {
                assert(t[i] == s[i]);
            }
        }
    }
}

/// Two lists whose items have the same abstract values have the same views.
proof fn lemma_item_views_ext(s: Seq<JsonValue>, v: Seq<JsonView>)
    requires
        s.len() == v.len(),
        forall|i: int| 0 <= i < s.len() ==> json_view(#[trigger] s[i]) == v[i],
    ensures
        item_views(s) == v,
{
    lemma_item_views(s);
    assert(item_views(s) =~= v);
}

/// Two member lists whose members have the same names and abstract values
/// have the same views.
proof fn lemma_member_views_ext(s: Seq<(String, JsonValue)>, v: Seq<(Seq<char>, JsonView)>)
    requires
        s.len() == v.len(),
        forall|i: int| 0 <= i < s.len() ==> (#[trigger] s[i]).0@ == v[i].0 && json_view(s[i].1) == v[i].1,
    ensures
        member_views(s) == v,
{
    lemma_member_views(s);
    assert forall|i: int| 0 <= i < s.len() implies #[trigger] member_views(s)[i] == v[i] by {
        assert(member_views(s)[i] == (s[i].0@, json_view(s[i].1)));
    }
    assert(member_views(s) =~= v);
}

proof fn lemma_member_index(m: Seq<(Seq<char>, JsonView)>, k: Seq<char>)
    ensures
        match member_index(m, k) {
            Some(i) => 0 <= i < m.len() && m[i].0 == k,
            None => forall|i: int| 0 <= i < m.len() ==> m[i].0 != k,
        },
    decreases m.len(),
{
    if m.len() > 0 {
        lemma_member_index(m.drop_first(), k);
        if m[0].0 != k {
            assert forall|i: int| 0 <= i < m.len() && member_index(m, k) is None implies m[i].0 != k by {
                if i > 0 {
                    assert(m.drop_first()[i - 1] == m[i]);
                }
            }
        }
    }
}

/// The position of the first member of `m` named `k`, if there is one.
fn find_member(m: &Vec<(String, JsonValue)>, k: &String) -> (r: Option<usize>)
    ensures
        match r {
            Some(i) => member_index(member_views(m@), k@) == Some(i as int),
            None => member_index(member_views(m@), k@) is None,
        },
{
    let ghost mv = member_views(m@);
    proof {
        lemma_member_views(m@);
    }
    let mut i: usize = 0;
    proof {
        assert(mv.skip(0) =~= mv);
    }
    while i < m.len()
        invariant
            mv == member_views(m@),
            mv.len() == m.len(),
            forall|j: int| 0 <= j < m.len() ==> #[trigger] mv[j] == (m@[j].0@, json_view(m@[j].1)),
            i <= m.len(),
            member_index(mv, k@) == match member_index(mv.skip(i as int), k@) {
                Some(x) => Some(x + i),
                None => None,
            },
        decreases m.len() - i,
    {
        let ghost rest = mv.skip(i as int);
        proof {
            assert(rest[0] == mv[i as int]);
            assert(rest.drop_first() =~= mv.skip(i + 1));
        }
        if m[i].0 == *k {
            return Some(i);
        }
        i = i + 1;
    }
    None
}

impl JsonValue {
    /// A copy of the value.
    pub fn duplicate(&self) -> (r: JsonValue)
        ensures
            r@ == self@,
        decreases self,
    {
        match self {
            JsonValue::Null => JsonValue::Null,
            JsonValue::Bool(b) => JsonValue::Bool(*b),
            JsonValue::Number(n) => JsonValue::Number(n.clone()),
            JsonValue::String(s) => JsonValue::String(s.clone()),
            JsonValue::Array(v) => {
                let mut out: Vec<JsonValue> = Vec::new();
                let mut i: usize = 0;
                while i < v.len()
                    invariant
                        *self == JsonValue::Array(*v),
                        i <= v.len(),
                        out@.len() == i,
                        forall|j: int| 0 <= j < i ==> json_view(#[trigger] out@[j]) == json_view(v@[j]),
                    decreases v.len() - i,
                {
                    proof {
                        assert(decreases_to!(*self => (*self)->Array_0));
                    }
                    let item = v[i].duplicate();
                    out.push(item);
                    i = i + 1;
                }
                proof {
                    lemma_item_views(v@);
                    lemma_item_views_ext(out@, item_views(v@));
                }
                JsonValue::Array(out)
            },
            JsonValue::Object(m) => {
                let mut out: Vec<(String, JsonValue)> = Vec::new();
                let mut i: usize = 0;
                while i < m.len()
                    invariant
                        *self == JsonValue::Object(*m),
                        i <= m.len(),
                        out@.len() == i,
                        forall|j: int|
                            0 <= j < i ==> (#[trigger] out@[j]).0@ == m@[j].0@ && json_view(out@[j].1)
                                == json_view(m@[j].1),
                    decreases m.len() - i,
                {
                    proof {
                        assert(decreases_to!(*self => (*self)->Object_0));
                    }
                    let value = m[i].1.duplicate();
                    out.push((m[i].0.clone(), value));
                    i = i + 1;
                }
                proof {
                    lemma_member_views(m@);
                    lemma_member_views_ext(out@, member_views(m@));
                }
                JsonValue::Object(out)
            },
        }
    }

    /// Whether the value counts as true.
    pub fn as_boolean(&self) -> (r: bool)
        ensures
            r == truthy(self@),
    {
        match self {
            JsonValue::String(s) => crate::text::str_eq(s.as_str(), "1") || crate::text::str_eq(
                s.as_str(),
                "true",
            ),
            JsonValue::Number(n) => crate::text::str_eq(n.as_str(), "1"),
            JsonValue::Bool(b) => *b,
            _ => false,
        }
    }

    /// `value` merged into this value, as [`merge_view`] describes.
    pub fn merge(&mut self, value: &JsonValue)
        ensures
            final(self)@ == merge_view(old(self)@, value@),
    {
        let mut current = JsonValue::Null;
        std::mem::swap(&mut current, self);
        *self = merged(current, value);
    }
}

/// `b` merged into `a`.
pub fn merged(a: JsonValue, b: &JsonValue) -> (r: JsonValue)
    ensures
        r@ == merge_view(a@, b@),
    decreases b,
{
    match b {
        JsonValue::Object(bm) => match a {
            JsonValue::Object(am) => {
                let ghost av = member_views(am@);
                let ghost bv = member_views(bm@);
                proof {
                    lemma_member_views(bm@);
                }
                let mut acc = am;
                let mut j: usize = 0;
                while j < bm.len()
                    invariant
                        *b == JsonValue::Object(*bm),
                        j <= bm.len(),
                        bv == member_views(bm@),
                        bv.len() == bm.len(),
                        forall|x: int| 0 <= x < bm.len() ==> #[trigger] bv[x] == (bm@[x].0@, json_view(bm@[x].1)),
                        member_views(acc@) == merge_members(av, bv, j as nat),
                    decreases bm.len() - j,
                {
                    let ghost before = acc@;
                    proof {
                        lemma_member_views(before);
                    }
                    let found = find_member(&acc, &bm[j].0);
                    match found {
                        Some(i) => {
                            proof {
                                lemma_member_index(member_views(before), bm@[j as int].0@);
                            }
                            let (name, old_value) = acc.remove(i);
                            proof {
                                assert(decreases_to!(*b => (*b)->Object_0));
                            }
                            let new_value = merged(old_value, &bm[j].1);
                            acc.insert(i, (name, new_value));
                            proof {
                                assert(acc@ =~= before.update(i as int, (name, new_value)));
                                let mm = merge_members(av, bv, j as nat);
                                assert(mm == member_views(before));
                                assert(merge_members(av, bv, (j + 1) as nat) == mm.update(
                                    i as int,
                                    (bv[j as int].0, merge_view(mm[i as int].1, bv[j as int].1)),
                                ));
                                lemma_member_views_ext(acc@, merge_members(av, bv, (j + 1) as nat));
                            }
                        },
                        None => {
                            let value = bm[j].1.duplicate();
                            acc.push((bm[j].0.clone(), value));
                            proof {
                                let mm = merge_members(av, bv, j as nat);
                                assert(mm == member_views(before));
                                assert(acc@ =~= before.push((bm@[j as int].0, value)));
                                lemma_member_views_ext(acc@, merge_members(av, bv, (j + 1) as nat));
                            }
                        },
                    }
                    j = j + 1;
                }
                JsonValue::Object(acc)
            },
            _ => b.duplicate(),
        },
        _ => b.duplicate(),
    }
}

} // verus!

verus! {

/// A name found among members stays found when the members keep their
/// names and more may follow.
proof fn lemma_member_index_kept(m: Seq<(Seq<char>, JsonView)>, m2: Seq<(Seq<char>, JsonView)>, k: Seq<char>)
    requires
        member_index(m, k) is Some,
        m2.len() >= m.len(),
        forall|i: int| 0 <= i < m.len() ==> m2[i].0 == m[i].0,
    ensures
        member_index(m2, k) is Some,
{
    lemma_member_index(m, k);
    lemma_member_index(m2, k);
    let i = member_index(m, k)->0;
    assert(m2[i].0 == k);
}

proof fn lemma_merge_members_prefix(
    am: Seq<(Seq<char>, JsonView)>,
    bm: Seq<(Seq<char>, JsonView)>,
    n: nat,
)
    requires
        n <= bm.len(),
    ensures
        merge_members(am, bm, n).len() >= am.len(),
        forall|i: int| 0 <= i < am.len() ==> #[trigger] merge_members(am, bm, n)[i].0 == am[i].0,
        forall|i: int|
            0 <= i < am.len() && (forall|x: int| 0 <= x < n ==> bm[x].0 != am[i].0) ==> #[trigger] merge_members(
                am,
                bm,
                n,
            )[i] == am[i],
        forall|x: int| 0 <= x < n ==> member_index(merge_members(am, bm, n), #[trigger] bm[x].0) is Some,
    decreases n,
{
    if n > 0 {
        let p = (n - 1) as nat;
        lemma_merge_members_prefix(am, bm, p);
        let acc = merge_members(am, bm, p);
        let k = bm[n - 1].0;
        let r = merge_members(am, bm, n);
        lemma_member_index(acc, k);
        assert(r.len() >= acc.len());
        assert forall|i: int| 0 <= i < acc.len() implies r[i].0 == acc[i].0 by {}
        assert forall|i: int|
            0 <= i < am.len() && (forall|x: int| 0 <= x < n ==> bm[x].0 != am[i].0) implies #[trigger] r[i] == am[i] by {
            assert(bm[n - 1].0 != am[i].0);
            assert(forall|x: int| 0 <= x < p ==> bm[x].0 != am[i].0);
            assert(acc[i] == am[i]);
            match member_index(acc, k) {
                Some(j) => {
                    assert(acc[j].0 == k);
                    assert(j != i);
                },
                None => {},
            }
        }
        assert forall|x: int| 0 <= x < n implies member_index(r, #[trigger] bm[x].0) is Some by {
            if x < p {
                lemma_member_index_kept(acc, r, bm[x].0);
            } else {
                lemma_member_index(r, k);
                match member_index(acc, k) {
                    Some(j) => {
                        assert(r[j].0 == k);
                    },
                    None => {
                        assert(r[r.len() - 1].0 == k);
                    },
                }
            }
        }
    }
}

/// Merging one object into another keeps the members of the first, by
/// name and place, leaves untouched those whose name the second lacks, and
/// ends with a member for every name of the second; any other value merged
/// in takes the place of the first.
pub proof fn law_merge(a: JsonView, b: JsonView)
    ensures
        !(b is Object && a is Object) ==> merge_view(a, b) == b,
        (a is Object && b is Object) ==> {
            let am = a->Object_0;
            let bm = b->Object_0;
            let rm = merge_view(a, b)->Object_0;
            &&& merge_view(a, b) is Object
            &&& rm.len() >= am.len()
            &&& forall|i: int| 0 <= i < am.len() ==> rm[i].0 == am[i].0
            &&& forall|i: int| 0 <= i < am.len() && member_index(bm, am[i].0) is None ==> rm[i] == am[i]
            &&& forall|x: int| 0 <= x < bm.len() ==> member_index(rm, bm[x].0) is Some
        },
{
    if a is Object && b is Object {
        let am = a->Object_0;
        let bm = b->Object_0;
        lemma_merge_members_prefix(am, bm, bm.len());
        assert forall|i: int| 0 <= i < am.len() && member_index(bm, am[i].0) is None implies merge_members(
            am,
            bm,
            bm.len(),
        )[i] == am[i] by {
            lemma_member_index(bm, am[i].0);
        }
    }
}

} // verus!
