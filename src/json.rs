use vstd::prelude::*;
use vstd::string::{StringExecFns, StringSliceAdditionalSpecFns};
use vstd::utf8::*;

verus! {

/// A JSON document as this library builds and merges it.
///
/// Numbers are kept as their JSON text, so that any number a caller supplies
/// passes through unchanged.
pub enum Json {
    Null,
    Bool(bool),
    Number(JsonNumber),
    Str(String),
    Array(Vec<Json>),
    Object(JsonMap),
}

/// The text of a JSON number: not empty, ASCII, and made of digits, signs,
/// a decimal point and exponent marks only.
pub open spec fn number_text(t: Seq<char>) -> bool {
    &&& t.len() > 0
    &&& is_ascii_chars(t)
    &&& forall|i: int| 0 <= i < t.len() ==> is_number_byte(#[trigger] t[i] as u8)
}

/// A JSON number, held as its text.
pub struct JsonNumber {
    text: String,
}

/// The decimal digits of `n`, most significant first.
pub open spec fn decimal(n: nat) -> Seq<char>
    decreases n,
{
    if n < 10 {
        seq!["0123456789"@[n as int]]
    } else {
        decimal(n / 10).push("0123456789"@[(n % 10) as int])
    }
}

proof fn lemma_decimal_is_number(n: nat)
    ensures
        number_text(decimal(n)),
    decreases n,
{
    reveal_strlit("0123456789");
    if n >= 10 {
        lemma_decimal_is_number(n / 10);
    }
}

/// Relies on the `Display` of `u32` in std: its decimal digits.
#[verifier::external_body]
fn decimal_text(n: u32) -> (r: String)
    ensures
        r@ == decimal(n as nat),
{
    n.to_string()
}

impl JsonNumber {
    #[verifier::type_invariant]
    spec fn wf(&self) -> bool {
        number_text(self.text@)
    }

    /// The text of the number.
    pub closed spec fn text(&self) -> Seq<char> {
        self.text@
    }

    /// The number written as `text`, or `None` where `text` is not made of
    /// number characters.
    pub fn new(text: String) -> (r: Option<JsonNumber>)
        ensures
            r is Some <==> number_text(text@),
            r matches Some(n) ==> n.text() == text@,
    {
        if !text.as_str().is_ascii() {
            return None;
        }
        let bytes = text.as_str().as_bytes();
        let ghost t = text@;
        proof {
            is_ascii_chars_encode_utf8(t);
            is_ascii_chars_nat_bound(t);
        }
        if bytes.len() == 0 {
            return None;
        }
        let mut i: usize = 0;
        while i < bytes.len()
            invariant
                i <= bytes.len(),
                t == text@,
                bytes@ == encode_utf8(t),
                bytes@.len() == t.len(),
                forall|j: int| 0 <= j < t.len() ==> (#[trigger] t[j]) as u8 == bytes@[j],
                is_ascii_chars(t),
                forall|j: int| 0 <= j < i ==> is_number_byte(#[trigger] t[j] as u8),
            decreases bytes.len() - i,
        {
            if !is_number_byte_exec(bytes[i]) {
                assert(t[i as int] as u8 == bytes@[i as int]);
                return None;
            }
            i = i + 1;
        }
        Some(JsonNumber { text })
    }

    /// The number `n`, in decimal.
    pub fn from_u32(n: u32) -> (r: JsonNumber)
        ensures
            r.text() == decimal(n as nat),
    {
        proof {
            lemma_decimal_is_number(n as nat);
        }
        JsonNumber { text: decimal_text(n) }
    }

    /// The text of the number.
    pub fn as_str(&self) -> (r: &str)
        ensures
            r@ == self.text(),
            number_text(r@),
            no_newline(r@),
    {
        proof {
            use_type_invariant(self);
            assert forall|i: int| 0 <= i < self.text@.len() implies #[trigger] self.text@[i] != '\n' by {
                if self.text@[i] == '\n' {
                    assert(self.text@[i] as u8 == 10);
                }
            }
        }
        self.text.as_str()
    }

    /// A copy of the number.
    pub fn copy(&self) -> (r: JsonNumber)
        ensures
            r.text() == self.text(),
    {
        proof {
            use_type_invariant(self);
        }
        JsonNumber { text: self.text.clone() }
    }
}

/// A byte of a number's text.
pub open spec fn is_number_byte(b: u8) -> bool {
    (48 <= b <= 57) || b == 45 || b == 43 || b == 46 || b == 101 || b == 69
}

fn is_number_byte_exec(b: u8) -> (r: bool)
    ensures
        r == is_number_byte(b),
{
    (48 <= b && b <= 57) || b == 45 || b == 43 || b == 46 || b == 101 || b == 69
}

/// A JSON object: its members in order.
pub struct JsonMap {
    pub entries: Vec<(String, Json)>,
}

/// The mathematical value of a JSON document.
pub enum JsonValue {
    Null,
    Bool(bool),
    Number(Seq<char>),
    Str(Seq<char>),
    Array(Seq<JsonValue>),
    Object(Seq<(Seq<char>, JsonValue)>),
}

/// The members of an object, in order.
pub type Members = Seq<(Seq<char>, JsonValue)>;

impl Json {
    pub open spec fn view(&self) -> JsonValue
        decreases self,
    {
        match self {
            Json::Null => JsonValue::Null,
            Json::Bool(b) => JsonValue::Bool(*b),
            Json::Number(n) => JsonValue::Number(n.text()),
            Json::Str(s) => JsonValue::Str(s@),
            Json::Array(items) => JsonValue::Array(values_of(items@)),
            Json::Object(m) => JsonValue::Object(members_of(m.entries@)),
        }
    }
}

/// The values of a sequence of documents.
pub open spec fn values_of(items: Seq<Json>) -> Seq<JsonValue>
    decreases items,
{
    Seq::new(
        items.len(),
        |i: int|
            if 0 <= i < items.len() {
                items[i].view()
            } else {
                JsonValue::Null
            },
    )
}

/// The members that a sequence of name and document pairs stands for.
pub open spec fn members_of(entries: Seq<(String, Json)>) -> Members
    decreases entries,
{
    Seq::new(
        entries.len(),
        |i: int|
            if 0 <= i < entries.len() {
                (entries[i].0@, entries[i].1.view())
            } else {
                (Seq::empty(), JsonValue::Null)
            },
    )
}

impl JsonMap {
    pub open spec fn view(&self) -> Members {
        members_of(self.entries@)
    }
}

/// The index of the first member named `k`, or -1 when there is none.
pub open spec fn index_of(m: Members, k: Seq<char>) -> int
    decreases m.len(),
{
    if m.len() == 0 {
        -1
    } else if index_of(m.drop_last(), k) >= 0 {
        index_of(m.drop_last(), k)
    } else if m.last().0 == k {
        m.len() - 1
    } else {
        -1
    }
}

/// The value of the first member named `k`.
pub open spec fn member(m: Members, k: Seq<char>) -> Option<JsonValue> {
    if index_of(m, k) >= 0 {
        Some(m[index_of(m, k)].1)
    } else {
        None
    }
}

/// No two members share a name.
pub open spec fn keys_unique(m: Members) -> bool {
    forall|i: int, j: int| 0 <= i < m.len() && 0 <= j < m.len() && i != j ==> m[i].0 != m[j].0
}

/// Deep merge of `overlay` into `base`: each member of `overlay` in turn is
/// merged in by `merge_member`.
pub open spec fn merge_members(base: Members, overlay: Members) -> Members
    decreases overlay,
{
    if overlay.len() == 0 {
        base
    } else {
        merge_member(
            merge_members(base, overlay.drop_last()),
            overlay.last().0,
            overlay.last().1,
        )
    }
}

/// Merges the member `k: v` into `base`: a new name is appended; where both
/// the old and the new value are objects they are merged deeply; otherwise
/// the new value replaces the old one.
pub open spec fn merge_member(base: Members, k: Seq<char>, v: JsonValue) -> Members
    decreases v,
{
    let i = index_of(base, k);
    if i < 0 {
        base.push((k, v))
    } else {
        match (base[i].1, v) {
            (JsonValue::Object(bm), JsonValue::Object(om)) => base.update(
                i,
                (k, JsonValue::Object(merge_members(bm, om))),
            ),
            _ => base.update(i, (k, v)),
        }
    }
}

/// `index_of` finds the first member named `k`.
pub proof fn lemma_index_of(m: Members, k: Seq<char>)
    ensures
        -1 <= index_of(m, k) < m.len(),
        index_of(m, k) >= 0 ==> m[index_of(m, k)].0 == k,
        forall|j: int| 0 <= j < m.len() && m[j].0 == k ==> 0 <= index_of(m, k) <= j,
    decreases m.len(),
{
    if m.len() > 0 {
        lemma_index_of(m.drop_last(), k);
        assert(forall|j: int| 0 <= j < m.len() - 1 ==> m.drop_last()[j] == #[trigger] m[j]);
    }
}

/// Members with the same names in the same places are searched alike.
proof fn lemma_index_of_same_names(m1: Members, m2: Members, k: Seq<char>)
    requires
        m1.len() == m2.len(),
        forall|j: int| 0 <= j < m1.len() ==> #[trigger] m1[j].0 == m2[j].0,
    ensures
        index_of(m1, k) == index_of(m2, k),
    decreases m1.len(),
{
    if m1.len() > 0 {
        assert(forall|j: int| 0 <= j < m1.len() - 1 ==> m1.drop_last()[j] == #[trigger] m1[j]);
        assert(forall|j: int| 0 <= j < m2.len() - 1 ==> m2.drop_last()[j] == #[trigger] m2[j]);
        lemma_index_of_same_names(m1.drop_last(), m2.drop_last(), k);
    }
}

/// The value of `q` once `k: v` has been merged into `m`.
proof fn lemma_merge_member_lookup(m: Members, k: Seq<char>, v: JsonValue, q: Seq<char>)
    ensures
        member(merge_member(m, k, v), q) == if q != k {
            member(m, q)
        } else {
            match (member(m, k), v) {
                (Some(JsonValue::Object(bm)), JsonValue::Object(om)) => Some(
                    JsonValue::Object(merge_members(bm, om)),
                ),
                _ => Some(v),
            }
        },
{
    let i = index_of(m, k);
    lemma_index_of(m, k);
    lemma_index_of(m, q);
    let r = merge_member(m, k, v);
    if i < 0 {
        assert(r.drop_last() =~= m);
    } else {
        lemma_index_of_same_names(m, r, q);
    }
}

/// What a deep merge holds under each name: a name that only `base` has
/// keeps its value; a name that only `overlay` has takes the overlay's
/// value; where both have the name and both values are objects, the two
/// objects are merged in turn; otherwise the overlay's value wins.
pub proof fn lemma_merge_lookup(base: Members, overlay: Members, k: Seq<char>)
    requires
        keys_unique(overlay),
    ensures
        member(merge_members(base, overlay), k) == match member(overlay, k) {
            None => member(base, k),
            Some(ov) => match (member(base, k), ov) {
                (Some(JsonValue::Object(bm)), JsonValue::Object(om)) => Some(
                    JsonValue::Object(merge_members(bm, om)),
                ),
                _ => Some(ov),
            },
        },
    decreases overlay.len(),
{
    if overlay.len() > 0 {
        let rest = overlay.drop_last();
        let kl = overlay.last().0;
        let vl = overlay.last().1;
        assert(forall|j: int| 0 <= j < rest.len() ==> rest[j] == #[trigger] overlay[j]);
        assert(keys_unique(rest));
        lemma_merge_lookup(base, rest, k);
        lemma_merge_lookup(base, rest, kl);
        lemma_merge_member_lookup(merge_members(base, rest), kl, vl, k);
        lemma_index_of(rest, kl);
        lemma_index_of(rest, k);
        lemma_index_of(overlay, k);
    }
}

/// Where a name is in both documents and one of its two values is not an
/// object, the merged document holds the overlay's value under that name.
pub proof fn lemma_merge_precedence(base: Members, overlay: Members, k: Seq<char>)
    requires
        keys_unique(overlay),
        member(base, k) is Some,
        member(overlay, k) is Some,
        !(member(base, k).unwrap() is Object && member(overlay, k).unwrap() is Object),
    ensures
        member(merge_members(base, overlay), k) == member(overlay, k),
{
    lemma_merge_lookup(base, overlay, k);
}

/// Where a name holds an object in both documents, the merged document holds
/// the deep merge of the two objects under it, at any depth.
pub proof fn lemma_merge_recursion(base: Members, overlay: Members, k: Seq<char>)
    requires
        keys_unique(overlay),
        member(base, k) matches Some(JsonValue::Object(_)),
        member(overlay, k) matches Some(JsonValue::Object(_)),
    ensures
        member(merge_members(base, overlay), k) == Some(
            JsonValue::Object(
                merge_members(
                    member(base, k).unwrap()->Object_0,
                    member(overlay, k).unwrap()->Object_0,
                ),
            ),
        ),
{
    lemma_merge_lookup(base, overlay, k);
}

/// No object at any depth has two members with the same name.
pub open spec fn unique_names(m: Members) -> bool
    decreases m,
{
    &&& keys_unique(m)
    &&& forall|i: int|
        0 <= i < m.len() ==> match #[trigger] m[i].1 {
            JsonValue::Object(inner) => unique_names(inner),
            _ => true,
        }
}

/// Merging `ov` into the value `xv` changes nothing.
pub open spec fn absorbs(xv: Option<JsonValue>, ov: JsonValue) -> bool {
    match (xv, ov) {
        (Some(JsonValue::Object(xm)), JsonValue::Object(om)) => merge_members(xm, om) == xm,
        (Some(v), _) => v == ov,
        (None, _) => false,
    }
}

/// Merging members that `x` already holds leaves `x` as it is.
proof fn lemma_merge_absorbed(x: Members, o: Members)
    requires
        forall|j: int| 0 <= j < o.len() ==> absorbs(member(x, #[trigger] o[j].0), o[j].1),
    ensures
        merge_members(x, o) == x,
    decreases o.len(),
{
    if o.len() > 0 {
        let rest = o.drop_last();
        assert(forall|j: int| 0 <= j < rest.len() ==> rest[j] == #[trigger] o[j]);
        lemma_merge_absorbed(x, rest);
        let kl = o.last().0;
        let vl = o.last().1;
        assert(absorbs(member(x, o[o.len() - 1].0), o[o.len() - 1].1));
        lemma_index_of(x, kl);
        let i = index_of(x, kl);
        let r = merge_member(x, kl, vl);
        assert(x[i] == (x[i].0, x[i].1));
        assert(r =~= x);
    }
}

/// In an object whose names are unique, a member's name finds that member.
proof fn lemma_member_at(m: Members, j: int)
    requires
        keys_unique(m),
        0 <= j < m.len(),
    ensures
        member(m, m[j].0) == Some(m[j].1),
{
    lemma_index_of(m, m[j].0);
}

/// Merging an object into itself gives the same object.
pub proof fn lemma_merge_self(m: Members)
    requires
        unique_names(m),
    ensures
        merge_members(m, m) == m,
    decreases m,
{
    assert forall|j: int| 0 <= j < m.len() implies absorbs(member(m, #[trigger] m[j].0), m[j].1) by {
        lemma_member_at(m, j);
        if let JsonValue::Object(inner) = m[j].1 {
            assert(decreases_to!(m => m[j]));
            assert(decreases_to!(m[j] => m[j].1));
            assert(decreases_to!(m[j].1 => m[j].1->Object_0));
            lemma_merge_self(inner);
        }
    }
    lemma_merge_absorbed(m, m);
}

/// Merging the same overlay a second time changes nothing.
pub proof fn lemma_merge_idempotent(base: Members, overlay: Members)
    requires
        unique_names(overlay),
    ensures
        merge_members(merge_members(base, overlay), overlay) == merge_members(base, overlay),
    decreases overlay,
{
    let r = merge_members(base, overlay);
    assert forall|j: int| 0 <= j < overlay.len() implies absorbs(
        member(r, #[trigger] overlay[j].0),
        overlay[j].1,
    ) by {
        let k = overlay[j].0;
        let ov = overlay[j].1;
        lemma_member_at(overlay, j);
        lemma_merge_lookup(base, overlay, k);
        if let JsonValue::Object(om) = ov {
            assert(decreases_to!(overlay => overlay[j]));
            assert(decreases_to!(overlay[j] => overlay[j].1));
            assert(decreases_to!(overlay[j].1 => overlay[j].1->Object_0));
            if let Some(JsonValue::Object(bm)) = member(base, k) {
                lemma_merge_idempotent(bm, om);
            } else {
                lemma_merge_self(om);
            }
        }
    }
    lemma_merge_absorbed(r, overlay);
}

/// Merging keeps the names of an object unique.
pub proof fn lemma_merge_keeps_names_unique(base: Members, overlay: Members)
    requires
        keys_unique(base),
    ensures
        keys_unique(merge_members(base, overlay)),
    decreases overlay.len(),
{
    if overlay.len() > 0 {
        let x = merge_members(base, overlay.drop_last());
        lemma_merge_keeps_names_unique(base, overlay.drop_last());
        let k = overlay.last().0;
        lemma_index_of(x, k);
        let r = merge_member(x, k, overlay.last().1);
        if index_of(x, k) < 0 {
            assert(forall|j: int| 0 <= j < x.len() ==> r[j] == #[trigger] x[j]);
        } else {
            assert(forall|j: int| 0 <= j < x.len() ==> r[j].0 == #[trigger] x[j].0);
        }
    }
}

/// A copy of a document.
pub fn copy_json(j: &Json) -> (r: Json)
    ensures
        r@ == j@,
    decreases j,
{
    match j {
        Json::Null => Json::Null,
        Json::Bool(b) => Json::Bool(*b),
        Json::Number(n) => Json::Number(n.copy()),
        Json::Str(s) => Json::Str(s.clone()),
        Json::Array(items) => {
            let mut out: Vec<Json> = Vec::new();
            let mut i: usize = 0;
            while i < items.len()
                invariant
                    *j == Json::Array(*items),
                    i <= items.len(),
                    out.len() == i,
                    forall|t: int| 0 <= t < i ==> (#[trigger] out[t])@ == items[t]@,
                decreases items.len() - i,
            {
                proof {
                    assert(decreases_to!(*j => (*j)->Array_0));
                    assert(decreases_to!(*items => items[i as int]));
                }
                out.push(copy_json(&items[i]));
                i = i + 1;
            }
            assert(values_of(out@) =~= values_of(items@));
            Json::Array(out)
        },
        Json::Object(m) => Json::Object(copy_map(m)),
    }
}

/// A copy of an object.
pub fn copy_map(m: &JsonMap) -> (r: JsonMap)
    ensures
        r@ == m@,
    decreases m,
{
    let mut out: Vec<(String, Json)> = Vec::new();
    let mut i: usize = 0;
    while i < m.entries.len()
        invariant
            i <= m.entries.len(),
            out.len() == i,
            forall|t: int|
                0 <= t < i ==> (#[trigger] out[t]).0@ == m.entries[t].0@ && out[t].1@
                    == m.entries[t].1@,
        decreases m.entries.len() - i,
    {
        let name = m.entries[i].0.clone();
        let value = copy_json(&m.entries[i].1);
        out.push((name, value));
        i = i + 1;
    }
    let r = JsonMap { entries: out };
    assert(r@ =~= m@);
    r
}

/// The position of the first member named `k`.
fn find_member(entries: &Vec<(String, Json)>, k: &String) -> (r: Option<usize>)
    ensures
        match r {
            Some(i) => i < entries.len() && i == index_of(members_of(entries@), k@),
            None => index_of(members_of(entries@), k@) < 0,
        },
{
    let ghost m = members_of(entries@);
    let mut i: usize = 0;
    while i < entries.len()
        invariant
            i <= entries.len(),
            m == members_of(entries@),
            forall|t: int| 0 <= t < i ==> (#[trigger] m[t]).0 != k@,
        decreases entries.len() - i,
    {
        assert(m[i as int] == (entries[i as int].0@, entries[i as int].1@));
        if entries[i].0 == *k {
            proof {
                lemma_index_of(m, k@);
            }
            return Some(i);
        }
        i = i + 1;
    }
    proof {
        lemma_index_of(m, k@);
    }
    None
}

/// Deep merge of `b` into `a`: the members of `b` win over those of `a`,
/// except that two objects under one name are merged in turn.
pub fn extend_json_map(a: &mut JsonMap, b: &JsonMap)
    ensures
        final(a)@ == merge_members(old(a)@, b@),
    decreases b,
{
    let mut i: usize = 0;
    while i < b.entries.len()
        invariant
            i <= b.entries.len(),
            a@ == merge_members(old(a)@, b@.subrange(0, i as int)),
        decreases b.entries.len() - i,
    {
        let ghost before = a@;
        let k = &b.entries[i].0;
        let v = &b.entries[i].1;
        assert(b@.subrange(0, i + 1).drop_last() =~= b@.subrange(0, i as int));
        match find_member(&a.entries, k) {
            None => {
                a.entries.push((k.clone(), copy_json(v)));
                assert(a@ =~= before.push((k@, v@)));
            },
            Some(idx) => {
                let merged = match (&a.entries[idx].1, v) {
                    (Json::Object(am), Json::Object(bm)) => {
                        let mut nested = copy_map(am);
                        extend_json_map(&mut nested, bm);
                        Json::Object(nested)
                    },
                    _ => copy_json(v),
                };
                a.entries.set(idx, (k.clone(), merged));
                assert(a@ =~= merge_member(before, k@, v@));
            },
        }
        i = i + 1;
    }
    assert(b@.subrange(0, b@.len() as int) =~= b@);
}

/// The JSON string literal for `s`, as serde_json writes it.
pub uninterp spec fn quoted(s: Seq<char>) -> Seq<char>;

/// Relies on `serde_json::to_string` on a `str`: the string literal, with
/// serde_json's escapes. Writing a `str` does not fail, and every control
/// character is escaped, so the literal holds no line break.
#[verifier::external_body]
fn quote(s: &str) -> (r: String)
    ensures
        r@ == quoted(s@),
        no_newline(r@),
{
    serde_json::to_string(s).unwrap_or_default()
}

/// The JSON text of a value, with no white space.
pub open spec fn render(v: JsonValue) -> Seq<char>
    decreases v,
{
    match v {
        JsonValue::Null => "null"@,
        JsonValue::Bool(b) => if b {
            "true"@
        } else {
            "false"@
        },
        JsonValue::Number(n) => n,
        JsonValue::Str(s) => quoted(s),
        JsonValue::Array(items) => "["@ + render_items(items) + "]"@,
        JsonValue::Object(m) => "{"@ + render_members(m) + "}"@,
    }
}

/// The elements of an array, separated by commas.
pub open spec fn render_items(items: Seq<JsonValue>) -> Seq<char>
    decreases items,
{
    if items.len() == 0 {
        seq![]
    } else if items.len() == 1 {
        render(items[0])
    } else {
        render_items(items.drop_last()) + ","@ + render(items.last())
    }
}

/// The members of an object, each as `"name":value`, separated by commas.
pub open spec fn render_members(m: Members) -> Seq<char>
    decreases m,
{
    if m.len() == 0 {
        seq![]
    } else if m.len() == 1 {
        quoted(m[0].0) + ":"@ + render(m[0].1)
    } else {
        render_members(m.drop_last()) + ","@ + quoted(m.last().0) + ":"@ + render(m.last().1)
    }
}

/// No line break.
pub open spec fn no_newline(s: Seq<char>) -> bool {
    forall|i: int| 0 <= i < s.len() ==> s[i] != '\n'
}

/// Appends `t`, which holds no line break, to `out`.
fn push_text(out: &mut String, t: &str)
    requires
        no_newline(t@),
    ensures
        final(out)@ == old(out)@ + t@,
        no_newline(old(out)@) ==> no_newline(final(out)@),
{
    out.append(t);
    assert(forall|i: int| 0 <= i < old(out)@.len() ==> final(out)@[i] == old(out)@[i]);
    assert(forall|i: int|
        old(out)@.len() <= i < final(out)@.len() ==> final(out)@[i] == t@[i - old(out)@.len()]);
}

/// Appends the JSON text of `j` to `out`.
pub fn write_json(j: &Json, out: &mut String)
    ensures
        final(out)@ == old(out)@ + render(j@),
        no_newline(old(out)@) ==> no_newline(final(out)@),
    decreases j,
{
    match j {
        Json::Null => {
            proof {
                reveal_strlit("null");
            }
            push_text(out, "null")
        },
        Json::Bool(b) => if *b {
            {
            proof {
                reveal_strlit("true");
            }
            push_text(out, "true")
        }
        } else {
            {
            proof {
                reveal_strlit("false");
            }
            push_text(out, "false")
        }
        },
        Json::Number(n) => push_text(out, n.as_str()),
        Json::Str(s) => {
            let q = quote(s.as_str());
            push_text(out, q.as_str());
        },
        Json::Array(items) => {
            let ghost start = out@;
            let ghost vals = values_of(items@);
            proof {
            reveal_strlit("[");
        }
        push_text(out, "[");
            let mut i: usize = 0;
            while i < items.len()
                invariant
                    *j == Json::Array(*items),
                    vals == values_of(items@),
                    i <= items.len(),
                    out@ == start + "["@ + render_items(vals.subrange(0, i as int)),
                    no_newline(start) ==> no_newline(out@),
                decreases items.len() - i,
            {
                if i > 0 {
                    proof {
            reveal_strlit(",");
        }
        push_text(out, ",");
                }
                proof {
                    assert(decreases_to!(*j => (*j)->Array_0));
                    assert(decreases_to!(*items => items[i as int]));
                    assert(vals.subrange(0, i + 1).drop_last() =~= vals.subrange(0, i as int));
                }
                write_json(&items[i], out);
                i = i + 1;
            }
            proof {
            reveal_strlit("]");
        }
        push_text(out, "]");
            assert(vals.subrange(0, items.len() as int) =~= vals);
            assert(out@ =~= start + render(j@));
        },
        Json::Object(m) => write_map(m, out),
    }
}

/// Appends the JSON text of the object `m` to `out`.
pub fn write_map(m: &JsonMap, out: &mut String)
    ensures
        final(out)@ == old(out)@ + "{"@ + render_members(m@) + "}"@,
        no_newline(old(out)@) ==> no_newline(final(out)@),
    decreases m,
{
    let ghost start = out@;
    proof {
            reveal_strlit("{");
        }
        push_text(out, "{");
    let mut i: usize = 0;
    while i < m.entries.len()
        invariant
            i <= m.entries.len(),
            out@ == start + "{"@ + render_members(m@.subrange(0, i as int)),
            no_newline(start) ==> no_newline(out@),
        decreases m.entries.len() - i,
    {
        if i > 0 {
            proof {
            reveal_strlit(",");
        }
        push_text(out, ",");
        }
        let q = quote(m.entries[i].0.as_str());
        push_text(out, q.as_str());
        proof {
            reveal_strlit(":");
        }
        push_text(out, ":");
        proof {
            assert(m@.subrange(0, i + 1).drop_last() =~= m@.subrange(0, i as int));
        }
        write_json(&m.entries[i].1, out);
        i = i + 1;
    }
    proof {
            reveal_strlit("}");
        }
        push_text(out, "}");
    assert(m@.subrange(0, m.entries.len() as int) =~= m@);
}

} // verus!
