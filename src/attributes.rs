//! Attribute key/value pairs and canonical attribute sets.
use vstd::prelude::*;

verus! {

/// The value half of an attribute.
pub enum Value {
    Bool(bool),
    I64(i64),
    String(String),
}

/// The mathematical content of a [`Value`].
pub enum ValueView {
    Bool(bool),
    I64(i64),
    String(Seq<char>),
}

impl View for Value {
    type V = ValueView;

    open spec fn view(&self) -> ValueView {
        match self {
            Value::Bool(b) => ValueView::Bool(*b),
            Value::I64(i) => ValueView::I64(*i),
            Value::String(s) => ValueView::String(s@),
        }
    }
}

impl Clone for Value {
    fn clone(&self) -> (r: Self)
        ensures
            r@ == self@,
    {
        match self {
            Value::Bool(b) => Value::Bool(*b),
            Value::I64(i) => Value::I64(*i),
            Value::String(s) => Value::String(s.clone()),
        }
    }
}

impl Value {
    /// Whether two values hold the same content.
    pub fn same_as(&self, other: &Value) -> (r: bool)
        ensures
            r == (self@ == other@),
    {
        match (self, other) {
            (Value::Bool(a), Value::Bool(b)) => *a == *b,
            (Value::I64(a), Value::I64(b)) => *a == *b,
            (Value::String(a), Value::String(b)) => *a == *b,
            _ => false,
        }
    }
}

/// One attribute: a key and its value.
pub struct KeyValue {
    pub key: String,
    pub value: Value,
}

/// The mathematical content of a [`KeyValue`]: its key's characters and its value.
pub type AttrView = (Seq<char>, ValueView);

impl View for KeyValue {
    type V = AttrView;

    open spec fn view(&self) -> AttrView {
        (self.key@, self.value@)
    }
}

impl Clone for KeyValue {
    fn clone(&self) -> (r: Self)
        ensures
            r@ == self@,
    {
        KeyValue { key: self.key.clone(), value: self.value.clone() }
    }
}

impl KeyValue {
    /// Creates an attribute from a key and a value.
    pub fn new(key: String, value: Value) -> (r: KeyValue)
        ensures
            r.key == key,
            r.value == value,
    {
        KeyValue { key, value }
    }
}

/// The attributes of a slice, as views.
pub open spec fn attrs_view(v: Seq<KeyValue>) -> Seq<AttrView> {
    v.map_values(|kv: KeyValue| kv@)
}

/// Lexicographic order on keys, comparing characters from position `i` on.
pub open spec fn key_lt_from(a: Seq<char>, b: Seq<char>, i: int) -> bool
    decreases a.len() - i,
{
    if i < 0 || i >= a.len() {
        i >= 0 && i < b.len()
    } else if i >= b.len() {
        false
    } else if a[i] != b[i] {
        (a[i] as int) < (b[i] as int)
    } else {
        key_lt_from(a, b, i + 1)
    }
}

/// Strict lexicographic order on keys.
pub open spec fn key_lt(a: Seq<char>, b: Seq<char>) -> bool {
    key_lt_from(a, b, 0)
}

/// Keys strictly increase along the sequence: sorted, and no key twice.
pub open spec fn sorted_by_key(s: Seq<AttrView>) -> bool {
    forall|i: int, j: int| 0 <= i < j < s.len() ==> key_lt(#[trigger] s[i].0, #[trigger] s[j].0)
}

/// What a sequence of attributes says, key by key, when a later value for a
/// key replaces an earlier one.
pub open spec fn attr_map(s: Seq<AttrView>) -> Map<Seq<char>, ValueView>
    decreases s.len(),
{
    if s.len() == 0 {
        Map::empty()
    } else {
        attr_map(s.drop_last()).insert(s.last().0, s.last().1)
    }
}

/// The canonical form of an attribute sequence: sorted by key, one entry per
/// key, the last value given for each key.
pub open spec fn canonical(s: Seq<AttrView>) -> Seq<AttrView> {
    choose|r: Seq<AttrView>| sorted_by_key(r) && attr_map(r) == attr_map(s)
}

proof fn lemma_key_lt_from_irreflexive(a: Seq<char>, i: int)
    requires
        0 <= i,
    ensures
        !key_lt_from(a, a, i),
    decreases a.len() - i,
{
    if i < a.len() {
        lemma_key_lt_from_irreflexive(a, i + 1);
    }
}

proof fn lemma_key_lt_from_total(a: Seq<char>, b: Seq<char>, i: int)
    requires
        0 <= i <= a.len(),
        i <= b.len(),
        a.subrange(0, i) == b.subrange(0, i),
        a != b,
    ensures
        key_lt_from(a, b, i) || key_lt_from(b, a, i),
    decreases a.len() - i,
{
    if i < a.len() && i < b.len() && a[i] == b[i] {
        assert(a.subrange(0, i + 1) =~= a.subrange(0, i).push(a[i]));
        assert(b.subrange(0, i + 1) =~= b.subrange(0, i).push(b[i]));
        lemma_key_lt_from_total(a, b, i + 1);
    } else if i == a.len() && i == b.len() {
        assert(a =~= a.subrange(0, i));
        assert(b =~= b.subrange(0, i));
    } else if i < a.len() && i < b.len() {
        let x = a[i] as int;
        let y = b[i] as int;
        assert(x != y);
    }
}

proof fn lemma_key_lt_from_transitive(a: Seq<char>, b: Seq<char>, c: Seq<char>, i: int)
    requires
        0 <= i,
        key_lt_from(a, b, i),
        key_lt_from(b, c, i),
    ensures
        key_lt_from(a, c, i),
    decreases a.len() - i,
{
    if i < a.len() && i < b.len() && i < c.len() && a[i] == b[i] && b[i] == c[i] {
        lemma_key_lt_from_transitive(a, b, c, i + 1);
    }
}

/// The order on keys is irreflexive.
pub proof fn lemma_key_lt_irreflexive(a: Seq<char>)
    ensures
        !key_lt(a, a),
{
    lemma_key_lt_from_irreflexive(a, 0);
}

/// The order on keys is total: of two different keys, one comes first.
pub proof fn lemma_key_lt_total(a: Seq<char>, b: Seq<char>)
    requires
        a != b,
    ensures
        key_lt(a, b) || key_lt(b, a),
{
    assert(a.subrange(0, 0) =~= b.subrange(0, 0));
    lemma_key_lt_from_total(a, b, 0);
}

/// The order on keys is transitive.
pub proof fn lemma_key_lt_transitive(a: Seq<char>, b: Seq<char>, c: Seq<char>)
    requires
        key_lt(a, b),
        key_lt(b, c),
    ensures
        key_lt(a, c),
{
    lemma_key_lt_from_transitive(a, b, c, 0);
}

/// Compares two keys: negative, zero or positive as `a` comes before, equals,
/// or comes after `b`.
pub fn compare_keys(a: &String, b: &String) -> (r: i8)
    ensures
        r < 0 <==> key_lt(a@, b@),
        r == 0 <==> a@ == b@,
        r > 0 <==> key_lt(b@, a@),
{
    let sa = a.as_str();
    let sb = b.as_str();
    let la = sa.unicode_len();
    let lb = sb.unicode_len();
    let mut i: usize = 0;
    while i < la && i < lb
        invariant
            sa@ == a@,
            sb@ == b@,
            la == a@.len(),
            lb == b@.len(),
            i <= la,
            i <= lb,
            a@.subrange(0, i as int) == b@.subrange(0, i as int),
            key_lt(a@, b@) == key_lt_from(a@, b@, i as int),
            key_lt(b@, a@) == key_lt_from(b@, a@, i as int),
        decreases la - i,
    {
        let ca = sa.get_char(i);
        let cb = sb.get_char(i);
        if ca != cb {
            proof {
                lemma_key_lt_irreflexive(a@);
                let x = ca as int;
                let y = cb as int;
                assert(x != y);
            }
            if (ca as u32) < (cb as u32) {
                return -1;
            } else {
                return 1;
            }
        }
        proof {
            assert(a@.subrange(0, i + 1) =~= a@.subrange(0, i as int).push(ca));
            assert(b@.subrange(0, i + 1) =~= b@.subrange(0, i as int).push(cb));
        }
        i = i + 1;
    }
    proof {
        lemma_key_lt_irreflexive(a@);
        lemma_key_lt_irreflexive(b@);
    }
    if la < lb {
        -1
    } else if lb < la {
        1
    } else {
        proof {
            assert(a@ =~= a@.subrange(0, i as int));
            assert(b@ =~= b@.subrange(0, i as int));
        }
        0
    }
}

/// No key occurs twice in the sequence.
pub open spec fn distinct_keys(s: Seq<AttrView>) -> bool {
    forall|i: int, j: int| 0 <= i < j < s.len() ==> #[trigger] s[i].0 != #[trigger] s[j].0
}

proof fn lemma_sorted_distinct(s: Seq<AttrView>)
    requires
        sorted_by_key(s),
    ensures
        distinct_keys(s),
{
    assert forall|i: int, j: int| 0 <= i < j < s.len() implies #[trigger] s[i].0 != #[trigger] s[j].0 by {
        lemma_key_lt_irreflexive(s[i].0);
    }
}

/// Where no key occurs twice, the map holds each pair of the sequence and
/// nothing else.
proof fn lemma_map_of_distinct(s: Seq<AttrView>)
    requires
        distinct_keys(s),
    ensures
        forall|i: int|
            0 <= i < s.len() ==> #[trigger] attr_map(s).contains_key(s[i].0) && attr_map(s)[s[i].0]
                == s[i].1,
        forall|k: Seq<char>|
            #[trigger] attr_map(s).contains_key(k) ==> exists|i: int| 0 <= i < s.len() && s[i].0 == k,
    decreases s.len(),
{
    if s.len() > 0 {
        let t = s.drop_last();
        assert(distinct_keys(t));
        lemma_map_of_distinct(t);
        assert(attr_map(s) == attr_map(t).insert(s.last().0, s.last().1));
        assert forall|i: int| 0 <= i < s.len() implies #[trigger] attr_map(s).contains_key(s[i].0)
            && attr_map(s)[s[i].0] == s[i].1 by {
            if i < s.len() - 1 {
                assert(t[i] == s[i]);
            }
        }
        assert forall|k: Seq<char>| #[trigger] attr_map(s).contains_key(k) implies exists|i: int|
            0 <= i < s.len() && s[i].0 == k by {
            if k != s.last().0 {
                let i = choose|i: int| 0 <= i < t.len() && t[i].0 == k;
                assert(s[i] == t[i]);
            } else {
                assert(s[s.len() - 1].0 == k);
            }
        }
    }
}

/// Two sequences sorted by key that say the same thing are the same sequence.
pub proof fn lemma_sorted_unique(a: Seq<AttrView>, b: Seq<AttrView>)
    requires
        sorted_by_key(a),
        sorted_by_key(b),
        attr_map(a) == attr_map(b),
    ensures
        a == b,
    decreases a.len(),
{
    lemma_sorted_distinct(a);
    lemma_sorted_distinct(b);
    lemma_map_of_distinct(a);
    lemma_map_of_distinct(b);
    if a.len() == 0 {
        if b.len() > 0 {
            assert(attr_map(b).contains_key(b[0].0));
        }
        assert(a =~= b);
    } else {
        if b.len() == 0 {
            assert(attr_map(a).contains_key(a[0].0));
        }
        let la = a.last().0;
        let lb = b.last().0;
        assert(attr_map(a).contains_key(a[a.len() - 1].0));
        assert(attr_map(b).contains_key(b[b.len() - 1].0));
        let i = choose|i: int| 0 <= i < b.len() && b[i].0 == la;
        let j = choose|j: int| 0 <= j < a.len() && a[j].0 == lb;
        if la != lb {
            assert(i != b.len() - 1);
            assert(j != a.len() - 1);
            assert(key_lt(b[i].0, b[b.len() - 1].0));
            assert(key_lt(a[j].0, a[a.len() - 1].0));
            lemma_key_lt_transitive(la, lb, la);
            lemma_key_lt_irreflexive(la);
        }
        let ta = a.drop_last();
        let tb = b.drop_last();
        lemma_sorted_distinct(ta);
        lemma_sorted_distinct(tb);
        lemma_map_of_distinct(ta);
        lemma_map_of_distinct(tb);
        assert(!attr_map(ta).contains_key(la)) by {
            if attr_map(ta).contains_key(la) {
                let k = choose|k: int| 0 <= k < ta.len() && ta[k].0 == la;
                assert(a[k].0 == a[a.len() - 1].0);
            }
        }
        assert(!attr_map(tb).contains_key(lb)) by {
            if attr_map(tb).contains_key(lb) {
                let k = choose|k: int| 0 <= k < tb.len() && tb[k].0 == lb;
                assert(b[k].0 == b[b.len() - 1].0);
            }
        }
        assert(attr_map(ta) =~= attr_map(a).remove(la));
        assert(attr_map(tb) =~= attr_map(b).remove(lb));
        lemma_sorted_unique(ta, tb);
        assert(a =~= ta.push(a.last()));
        assert(b =~= tb.push(b.last()));
    }
}

/// A sorted sequence that says what `s` says is the canonical form of `s`.
pub proof fn lemma_canonical_is(s: Seq<AttrView>, r: Seq<AttrView>)
    requires
        sorted_by_key(r),
        attr_map(r) == attr_map(s),
    ensures
        canonical(s) == r,
{
    let c = canonical(s);
    assert(sorted_by_key(c) && attr_map(c) == attr_map(s));
    lemma_sorted_unique(c, r);
}

/// Two attribute sequences that hold the same pairs, no key twice, in whatever
/// order, have the same canonical form.
pub proof fn lemma_canonical_order_independent(a: Seq<AttrView>, b: Seq<AttrView>)
    requires
        distinct_keys(a),
        distinct_keys(b),
        a.to_set() == b.to_set(),
    ensures
        canonical(a) == canonical(b),
{
    lemma_map_of_distinct(a);
    lemma_map_of_distinct(b);
    assert forall|k: Seq<char>| #[trigger] attr_map(a).contains_key(k) implies attr_map(b).contains_key(k)
        && attr_map(a)[k] == attr_map(b)[k] by {
        let i = choose|i: int| 0 <= i < a.len() && a[i].0 == k;
        assert(a.to_set().contains(a[i]));
        assert(b.contains(a[i]));
        let j = choose|j: int| 0 <= j < b.len() && b[j] == a[i];
        assert(attr_map(b).contains_key(b[j].0));
        assert(attr_map(a).contains_key(a[i].0));
    }
    assert forall|k: Seq<char>| #[trigger] attr_map(b).contains_key(k) implies attr_map(a).contains_key(k) by {
        let j = choose|j: int| 0 <= j < b.len() && b[j].0 == k;
        assert(b.to_set().contains(b[j]));
        assert(a.contains(b[j]));
        let i = choose|i: int| 0 <= i < a.len() && a[i] == b[j];
        assert(attr_map(a).contains_key(a[i].0));
    }
    assert(attr_map(a) =~= attr_map(b));
}

/// Adds one attribute to a sorted vector: it replaces the value of an equal key,
/// or goes in at its place in the order.
fn insert_attr(v: &mut Vec<KeyValue>, kv: KeyValue)
    requires
        sorted_by_key(attrs_view(old(v)@)),
    ensures
        sorted_by_key(attrs_view(final(v)@)),
        attr_map(attrs_view(final(v)@)) == attr_map(attrs_view(old(v)@)).insert(kv@.0, kv@.1),
{
    let ghost s = attrs_view(v@);
    let mut p: usize = 0;
    let mut c: i8 = -1;
    while p < v.len()
        invariant
            p <= v.len(),
            s == attrs_view(v@),
            c >= 0 ==> p < v.len() && (c == 0 <==> s[p as int].0 == kv@.0) && (c > 0 <==> key_lt(
                kv@.0,
                s[p as int].0,
            )),
            forall|i: int| 0 <= i < p ==> key_lt(#[trigger] s[i].0, kv@.0),
        ensures
            p < v.len() ==> c >= 0,
            p <= v.len(),
            s == attrs_view(v@),
            c >= 0 ==> p < v.len() && (c == 0 <==> s[p as int].0 == kv@.0) && (c > 0 <==> key_lt(
                kv@.0,
                s[p as int].0,
            )),
            forall|i: int| 0 <= i < p ==> key_lt(#[trigger] s[i].0, kv@.0),
        decreases v.len() - p,
    {
        c = compare_keys(&v[p].key, &kv.key);
        proof {
            assert(s[p as int] == v@[p as int]@);
        }
        if c >= 0 {
            break;
        }
        p = p + 1;
    }
    proof {
        lemma_sorted_distinct(s);
        lemma_map_of_distinct(s);
    }
    let ghost kva = kv@;
    if p < v.len() && c == 0 {
        v.set(p, kv);
        proof {
            let t = attrs_view(v@);
            assert(t =~= s.update(p as int, kva));
            assert forall|i: int, j: int| 0 <= i < j < t.len() implies key_lt(#[trigger] t[i].0, #[trigger] t[j].0) by {
                assert(t[i].0 == s[i].0);
                assert(t[j].0 == s[j].0);
                assert(key_lt(s[i].0, s[j].0));
            }
            lemma_sorted_distinct(t);
            lemma_map_of_distinct(t);
            let m = attr_map(s).insert(kva.0, kva.1);
            assert forall|k: Seq<char>| #[trigger] attr_map(t).contains_key(k) implies m.contains_key(k) && attr_map(t)[k] == m[k] by {
                let i = choose|i: int| 0 <= i < t.len() && t[i].0 == k;
                if i != p {
                    assert(t[i] == s[i]);
                    assert(s[i].0 != s[p as int].0);
                    assert(attr_map(s).contains_key(s[i].0));
                }
            }
            assert forall|k: Seq<char>| #[trigger] m.contains_key(k) implies attr_map(t).contains_key(k) by {
                if k != kva.0 {
                    let i = choose|i: int| 0 <= i < s.len() && s[i].0 == k;
                    assert(t[i] == s[i]);
                } else {
                    assert(t[p as int].0 == k);
                }
            }
            assert(attr_map(t) =~= m);
        }
    } else {
        proof {
            if p < s.len() {
                assert(c > 0);
                assert(key_lt(kva.0, s[p as int].0));
            }
        }
        v.insert(p, kv);
        proof {
            let t = attrs_view(v@);
            assert(t =~= s.insert(p as int, kva));
            assert forall|i: int, j: int| 0 <= i < j < t.len() implies key_lt(#[trigger] t[i].0, #[trigger] t[j].0) by {
                if j < p {
                    assert(t[i] == s[i] && t[j] == s[j]);
                } else if j == p {
                    assert(t[i] == s[i]);
                } else if i == p {
                    assert(t[j] == s[j - 1]);
                    if j - 1 > p {
                        lemma_key_lt_transitive(kva.0, s[p as int].0, s[j - 1].0);
                    }
                } else if i < p {
                    assert(t[i] == s[i] && t[j] == s[j - 1]);
                } else {
                    assert(t[i] == s[i - 1] && t[j] == s[j - 1]);
                }
            }
            lemma_sorted_distinct(t);
            lemma_map_of_distinct(t);
            let m = attr_map(s).insert(kva.0, kva.1);
            assert forall|k: Seq<char>| #[trigger] attr_map(t).contains_key(k) implies m.contains_key(k) && attr_map(t)[k] == m[k] by {
                let i = choose|i: int| 0 <= i < t.len() && t[i].0 == k;
                assert(attr_map(t).contains_key(t[i].0));
                if i < p {
                    assert(t[i] == s[i]);
                    lemma_key_lt_irreflexive(kva.0);
                    assert(k != kva.0);
                    assert(attr_map(s).contains_key(s[i].0));
                } else if i > p {
                    assert(t[i] == s[i - 1]);
                    assert(t[p as int].0 != t[i].0);
                    assert(attr_map(s).contains_key(s[i - 1].0));
                } else {
                    assert(t[i] == kva);
                }
            }
            assert forall|k: Seq<char>| #[trigger] m.contains_key(k) implies attr_map(t).contains_key(k) by {
                if k != kva.0 {
                    let i = choose|i: int| 0 <= i < s.len() && s[i].0 == k;
                    if i < p {
                        assert(t[i] == s[i]);
                    } else {
                        assert(t[i + 1] == s[i]);
                    }
                } else {
                    assert(t[p as int].0 == k);
                }
            }
            assert(attr_map(t) =~= m);
        }
    }
}

/// The canonical form of an attribute list: sorted by key, one entry per key,
/// where a later value for a key replaces an earlier one.
pub fn canonicalize(attrs: &Vec<KeyValue>) -> (r: Vec<KeyValue>)
    ensures
        attrs_view(r@) == canonical(attrs_view(attrs@)),
        sorted_by_key(attrs_view(r@)),
{
    let ghost s = attrs_view(attrs@);
    let mut r: Vec<KeyValue> = Vec::new();
    let mut j: usize = 0;
    proof {
        assert(attrs_view(r@) =~= Seq::<AttrView>::empty());
        assert(s.subrange(0, 0) =~= Seq::<AttrView>::empty());
    }
    while j < attrs.len()
        invariant
            j <= attrs.len(),
            s == attrs_view(attrs@),
            sorted_by_key(attrs_view(r@)),
            attr_map(attrs_view(r@)) == attr_map(s.subrange(0, j as int)),
        decreases attrs.len() - j,
    {
        let kv = attrs[j].clone();
        insert_attr(&mut r, kv);
        proof {
            assert(s.subrange(0, j + 1).drop_last() =~= s.subrange(0, j as int));
            assert(s[j as int] == attrs@[j as int]@);
        }
        j = j + 1;
    }
    proof {
        assert(s.subrange(0, j as int) =~= s);
        lemma_canonical_is(s, attrs_view(r@));
    }
    r
}

/// Whether two attribute lists hold the same pairs in the same order.
pub fn same_attributes(a: &Vec<KeyValue>, b: &Vec<KeyValue>) -> (r: bool)
    ensures
        r == (attrs_view(a@) == attrs_view(b@)),
{
    if a.len() != b.len() {
        proof {
            assert(attrs_view(a@).len() != attrs_view(b@).len());
        }
        return false;
    }
    let mut i: usize = 0;
    while i < a.len()
        invariant
            a.len() == b.len(),
            i <= a.len(),
            forall|j: int| 0 <= j < i ==> #[trigger] a@[j]@ == b@[j]@,
        decreases a.len() - i,
    {
        let ka = &a[i];
        let kb = &b[i];
        if !(ka.key == kb.key && ka.value.same_as(&kb.value)) {
            proof {
                assert(attrs_view(a@)[i as int] != attrs_view(b@)[i as int]);
            }
            return false;
        }
        i = i + 1;
    }
    proof {
        assert(attrs_view(a@) =~= attrs_view(b@));
    }
    true
}

/// A copy of an attribute list.
pub fn copy_attributes(a: &Vec<KeyValue>) -> (r: Vec<KeyValue>)
    ensures
        attrs_view(r@) == attrs_view(a@),
{
    let mut r: Vec<KeyValue> = Vec::new();
    let mut i: usize = 0;
    while i < a.len()
        invariant
            i <= a.len(),
            r@.len() == i,
            forall|j: int| 0 <= j < i ==> #[trigger] r@[j]@ == a@[j]@,
        decreases a.len() - i,
    {
        r.push(a[i].clone());
        i = i + 1;
    }
    proof {
        assert(attrs_view(r@) =~= attrs_view(a@));
    }
    r
}

} // verus!
