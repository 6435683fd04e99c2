//! JSON sample values, their merging, and the inference of a structural type description.
use vstd::prelude::*;
use crate::text::{ascii_upper, chars_of, text_views};

verus! {

/// A JSON value. Object fields keep the order in which they were first set, each key once.
#[derive(Debug)]
pub enum JsonValue {
    Null,
    Bool(bool),
    /// The number as written.
    Number(String),
    String(String),
    Array(Vec<JsonValue>),
    Object(Vec<(String, JsonValue)>),
}

/// The elements of the first `n` values, arrays spliced in.
pub open spec fn merged_array(objects: Seq<JsonValue>, n: int) -> Seq<JsonValue>
    decreases n,
{
    if n <= 0 {
        Seq::empty()
    } else {
        match objects[n - 1] {
            JsonValue::Array(a) => merged_array(objects, n - 1) + a@,
            v => merged_array(objects, n - 1).push(v),
        }
    }
}

/// The position of the field named `k`.
pub open spec fn field_index(fs: Seq<(String, JsonValue)>, k: Seq<char>) -> Option<int>
    decreases fs.len(),
{
    if fs.len() == 0 {
        None
    } else if fs.last().0@ == k {
        Some(fs.len() - 1)
    } else {
        field_index(fs.drop_last(), k)
    }
}

/// Sets a field: the value of an existing key is replaced in place, a new key is appended.
pub open spec fn put_field(fs: Seq<(String, JsonValue)>, f: (String, JsonValue)) -> Seq<(String, JsonValue)> {
    match field_index(fs, f.0@) {
        Some(i) => fs.update(i, f),
        None => fs.push(f),
    }
}

pub open spec fn put_fields(fs: Seq<(String, JsonValue)>, new: Seq<(String, JsonValue)>, m: int) -> Seq<
    (String, JsonValue),
>
    decreases m,
{
    if m <= 0 {
        fs
    } else {
        put_field(put_fields(fs, new, m - 1), new[m - 1])
    }
}

/// The fields of the objects among the first `n` values, a later value of a key winning.
pub open spec fn merged_object(objects: Seq<JsonValue>, n: int) -> Seq<(String, JsonValue)>
    decreases n,
{
    if n <= 0 {
        Seq::empty()
    } else {
        match objects[n - 1] {
            JsonValue::Object(f) => put_fields(merged_object(objects, n - 1), f@, f@.len() as int),
            _ => merged_object(objects, n - 1),
        }
    }
}

fn find_field(fs: &Vec<(String, JsonValue)>, k: &String) -> (r: Option<usize>)
    ensures
        match r {
            Some(i) => field_index(fs@, k@) == Some(i as int) && i < fs@.len(),
            None => field_index(fs@, k@).is_none(),
        },
{
    let mut j: usize = fs.len();
    assert(fs@.take(j as int) =~= fs@);
    while j > 0
        invariant
            j <= fs.len(),
            field_index(fs@, k@) == field_index(fs@.take(j as int), k@),
        decreases j,
    {
        if fs[j - 1].0 == *k {
            return Some(j - 1);
        }
        assert(fs@.take(j as int).drop_last() =~= fs@.take(j - 1));
        j -= 1;
    }
    None
}

/// Merges samples: where the first is an array, all arrays are spliced together and other
/// values appended; otherwise the fields of all objects are joined, a later value of a key
/// replacing an earlier one, and other values are ignored.
pub fn merge(objects: Vec<JsonValue>) -> (r: JsonValue)
    ensures
        objects@.len() > 0 && objects@[0] is Array ==> (r matches JsonValue::Array(a) && a@
            == merged_array(objects@, objects@.len() as int)),
        !(objects@.len() > 0 && objects@[0] is Array) ==> (r matches JsonValue::Object(f) && f@
            == merged_object(objects@, objects@.len() as int)),
{
    let is_array = objects.len() > 0 && match &objects[0] {
        JsonValue::Array(_) => true,
        _ => false,
    };
    let ghost all = objects@;
    let n = objects.len();
    let mut rest = objects;
    let mut rev: Vec<JsonValue> = Vec::new();
    while rest.len() > 0
        invariant
            rest@ == all.take(rest@.len() as int),
            rev@.len() + rest@.len() == all.len(),
            forall|q: int| 0 <= q < rev@.len() ==> #[trigger] rev@[q] == all[all.len() - 1 - q],
        decreases rest.len(),
    {
        let x = rest.pop().unwrap();
        rev.push(x);
        assert(rest@ =~= all.take(rest@.len() as int));
    }
    if is_array {
        let mut out: Vec<JsonValue> = Vec::new();
        let mut i: usize = 0;
        while rev.len() > 0
            invariant
                n == all.len(),
                rev@.len() + i == n,
                forall|q: int| 0 <= q < rev@.len() ==> #[trigger] rev@[q] == all[n - 1 - q],
                out@ == merged_array(all, i as int),
            decreases rev.len(),
        {
            let x = rev.pop().unwrap();
            assert(x == all[i as int]);
            match x {
                JsonValue::Array(mut a) => {
                    out.append(&mut a);
                },
                v => {
                    out.push(v);
                },
            }
            i += 1;
        }
        JsonValue::Array(out)
    } else {
        let mut out: Vec<(String, JsonValue)> = Vec::new();
        let mut i: usize = 0;
        while rev.len() > 0
            invariant
                n == all.len(),
                rev@.len() + i == n,
                forall|q: int| 0 <= q < rev@.len() ==> #[trigger] rev@[q] == all[n - 1 - q],
                out@ == merged_object(all, i as int),
            decreases rev.len(),
        {
            let x = rev.pop().unwrap();
            assert(x == all[i as int]);
            match x {
                JsonValue::Object(fields) => {
                    let ghost base = out@;
                    let ghost fv = fields@;
                    let flen = fields.len();
                    let mut fields = fields;
                    let mut frev: Vec<(String, JsonValue)> = Vec::new();
                    while fields.len() > 0
                        invariant
                            fields@ == fv.take(fields@.len() as int),
                            frev@.len() + fields@.len() == fv.len(),
                            forall|q: int| 0 <= q < frev@.len() ==> #[trigger] frev@[q] == fv[fv.len() - 1 - q],
                        decreases fields.len(),
                    {
                        let f = fields.pop().unwrap();
                        frev.push(f);
                        assert(fields@ =~= fv.take(fields@.len() as int));
                    }
                    let mut m: usize = 0;
                    while frev.len() > 0
                        invariant
                            flen == fv.len(),
                            frev@.len() + m == fv.len(),
                            forall|q: int| 0 <= q < frev@.len() ==> #[trigger] frev@[q] == fv[fv.len() - 1 - q],
                            out@ == put_fields(base, fv, m as int),
                        decreases frev.len(),
                    {
                        let f = frev.pop().unwrap();
                        assert(f == fv[m as int]);
                        match find_field(&out, &f.0) {
                            Some(j) => {
                                out.set(j, f);
                            },
                            None => {
                                out.push(f);
                            },
                        }
                        m += 1;
                    }
                },
                _ => {},
            }
            i += 1;
        }
        JsonValue::Object(out)
    }
}

/// The last value of key `k` among the objects of the first `n` values.
pub open spec fn last_value(objects: Seq<JsonValue>, k: Seq<char>, n: int) -> Option<JsonValue>
    decreases n,
{
    if n <= 0 {
        None
    } else {
        match objects[n - 1] {
            JsonValue::Object(f) => match field_index(f@, k) {
                Some(i) => Some(f@[i].1),
                None => last_value(objects, k, n - 1),
            },
            _ => last_value(objects, k, n - 1),
        }
    }
}

pub open spec fn value_at(fs: Seq<(String, JsonValue)>, k: Seq<char>) -> Option<JsonValue> {
    match field_index(fs, k) {
        Some(i) => Some(fs[i].1),
        None => None,
    }
}

proof fn lemma_field_index(fs: Seq<(String, JsonValue)>, k: Seq<char>)
    ensures
        match field_index(fs, k) {
            Some(i) => 0 <= i < fs.len() && fs[i].0@ == k && forall|j: int| i < j < fs.len() ==> (#[trigger] fs[j]).0@ != k,
            None => forall|j: int| 0 <= j < fs.len() ==> (#[trigger] fs[j]).0@ != k,
        },
    decreases fs.len(),
{
    if fs.len() > 0 {
        lemma_field_index(fs.drop_last(), k);
        assert forall|j: int| 0 <= j < fs.len() - 1 implies fs[j] == fs.drop_last()[j] by {}
    }
}

/// Keys stay unique under `put_field`.
pub open spec fn keys_unique(fs: Seq<(String, JsonValue)>) -> bool {
    forall|i: int, j: int| 0 <= i < j < fs.len() ==> (#[trigger] fs[i]).0@ != (#[trigger] fs[j]).0@
}

proof fn lemma_put_field(fs: Seq<(String, JsonValue)>, f: (String, JsonValue), k: Seq<char>)
    requires
        keys_unique(fs),
    ensures
        keys_unique(put_field(fs, f)),
        value_at(put_field(fs, f), k) == if f.0@ == k {
            Some(f.1)
        } else {
            value_at(fs, k)
        },
{
    lemma_field_index(fs, f.0@);
    lemma_field_index(fs, k);
    let g = put_field(fs, f);
    lemma_field_index(g, k);
    match field_index(fs, f.0@) {
        Some(i) => {
            assert forall|a: int, b: int| 0 <= a < b < g.len() implies (#[trigger] g[a]).0@ != (#[trigger] g[b]).0@ by {
                if a != i && b != i {
                    assert(g[a] == fs[a] && g[b] == fs[b]);
                } else if a == i {
                    assert(g[b] == fs[b]);
                } else {
                    assert(g[a] == fs[a]);
                }
            }
            if f.0@ == k {
                assert(g[i].0@ == k);
            } else {
                match field_index(fs, k) {
                    Some(j) => {
                        assert(g[j] == fs[j]);
                    },
                    None => {
                        assert forall|j: int| 0 <= j < g.len() implies (#[trigger] g[j]).0@ != k by {
                            if j != i {
                                assert(g[j] == fs[j]);
                            }
                        }
                    },
                }
                match field_index(g, k) {
                    Some(j) => {
                        assert(g[j] == fs[j]);
                    },
                    None => {},
                }
            }
        },
        None => {
            assert forall|a: int, b: int| 0 <= a < b < g.len() implies (#[trigger] g[a]).0@ != (#[trigger] g[b]).0@ by {
                if b < fs.len() {
                    assert(g[a] == fs[a] && g[b] == fs[b]);
                } else {
                    assert(g[a] == fs[a]);
                }
            }
            if f.0@ != k {
                match field_index(fs, k) {
                    Some(j) => {
                        assert(g[j] == fs[j]);
                    },
                    None => {},
                }
                match field_index(g, k) {
                    Some(j) => {
                        assert(j < fs.len());
                        assert(g[j] == fs[j]);
                    },
                    None => {},
                }
            }
        },
    }
}


proof fn lemma_put_fields(fs: Seq<(String, JsonValue)>, new: Seq<(String, JsonValue)>, m: int, k: Seq<char>)
    requires
        keys_unique(fs),
        0 <= m <= new.len(),
    ensures
        keys_unique(put_fields(fs, new, m)),
        value_at(put_fields(fs, new, m), k) == match value_at(new.take(m), k) {
            Some(v) => Some(v),
            None => value_at(fs, k),
        },
    decreases m,
{
    if m > 0 {
        lemma_put_fields(fs, new, m - 1, k);
        lemma_put_field(put_fields(fs, new, m - 1), new[m - 1], k);
        assert(new.take(m).drop_last() =~= new.take(m - 1));
        assert(new.take(m).last() == new[m - 1]);
        lemma_field_index(new.take(m - 1), k);
        match field_index(new.take(m - 1), k) {
            Some(i) => {
                assert(new.take(m)[i] == new.take(m - 1)[i]);
            },
            None => {},
        }
    } else {
        assert(new.take(m).len() == 0);
    }
}

/// Merging objects keeps each key once, with the value of the last object that has it.
pub proof fn lemma_merge_last_wins(objects: Seq<JsonValue>, k: Seq<char>, n: int)
    requires
        0 <= n <= objects.len(),
    ensures
        keys_unique(merged_object(objects, n)),
        value_at(merged_object(objects, n), k) == last_value(objects, k, n),
    decreases n,
{
    if n > 0 {
        lemma_merge_last_wins(objects, k, n - 1);
        match objects[n - 1] {
            JsonValue::Object(f) => {
                lemma_put_fields(merged_object(objects, n - 1), f@, f@.len() as int, k);
                assert(f@.take(f@.len() as int) =~= f@);
            },
            _ => {},
        }
    }
}

/// Relies on `str::to_ascii_uppercase`: ASCII letters upper-cased, other characters kept.
#[verifier::external_body]
fn to_ascii_upper(s: &str) -> (r: String)
    ensures
        r@ == s@.map_values(|c: char| ascii_upper(c)),
{
    s.to_ascii_uppercase()
}

/// A field name as a type name: its first character upper-cased.
pub open spec fn capitalized(name: Seq<char>) -> Seq<char> {
    if name.len() == 0 {
        name
    } else {
        seq![ascii_upper(name[0])] + name.skip(1)
    }
}

fn capitalize(name: &str) -> (r: String)
    ensures
        r@ == capitalized(name@),
{
    let n = name.unicode_len();
    if n == 0 {
        return String::new();
    }
    let head = to_ascii_upper(name.substring_char(0, 1));
    let tail = name.substring_char(1, n);
    let r = head.concat(tail);
    assert(r@ =~= capitalized(name@));
    r
}

/// Lexicographic order of character sequences.
pub open spec fn text_less(a: Seq<char>, b: Seq<char>) -> bool
    decreases a.len(),
{
    if a.len() == 0 {
        b.len() > 0
    } else if b.len() == 0 {
        false
    } else if a[0] != b[0] {
        a[0] < b[0]
    } else {
        text_less(a.drop_first(), b.drop_first())
    }
}

fn less_text(a: &str, b: &str) -> (r: bool)
    ensures
        r == text_less(a@, b@),
{
    let x = chars_of(a);
    let y = chars_of(b);
    let mut i: usize = 0;
    assert(a@.skip(0) =~= a@);
    assert(b@.skip(0) =~= b@);
    while i < x.len() && i < y.len()
        invariant
            x@ == a@,
            y@ == b@,
            i <= x@.len(),
            i <= y@.len(),
            text_less(a@, b@) == text_less(a@.skip(i as int), b@.skip(i as int)),
        decreases x.len() - i,
    {
        if x[i] != y[i] {
            return x[i] < y[i];
        }
        assert(a@.skip(i as int).drop_first() =~= a@.skip(i + 1));
        assert(b@.skip(i as int).drop_first() =~= b@.skip(i + 1));
        i += 1;
    }
    i == x.len() && i < y.len()
}

/// Where the insertion order puts field `i` among the positions `r`, scanning down from `p`.
pub open spec fn insert_pos(fields: Seq<(String, JsonValue)>, r: Seq<int>, i: int, p: int) -> int
    decreases p,
{
    if p > 0 && text_less(fields[i].0@, fields[r[p - 1]].0@) {
        insert_pos(fields, r, i, p - 1)
    } else {
        p
    }
}

/// The positions of the first `n` fields, ordered by key; equal keys keep their order.
pub open spec fn key_order_of(fields: Seq<(String, JsonValue)>, n: int) -> Seq<int>
    decreases n,
{
    if n <= 0 {
        Seq::empty()
    } else {
        let r = key_order_of(fields, n - 1);
        r.insert(insert_pos(fields, r, n - 1, r.len() as int), n - 1)
    }
}

proof fn lemma_insert_pos(fields: Seq<(String, JsonValue)>, r: Seq<int>, i: int, p: int)
    requires
        0 <= p <= r.len(),
    ensures
        0 <= insert_pos(fields, r, i, p) <= p,
    decreases p,
{
    if p > 0 && text_less(fields[i].0@, fields[r[p - 1]].0@) {
        lemma_insert_pos(fields, r, i, p - 1);
    }
}

proof fn lemma_key_order(fields: Seq<(String, JsonValue)>, n: int)
    requires
        0 <= n <= fields.len(),
    ensures
        key_order_of(fields, n).len() == n,
        forall|q: int| 0 <= q < n ==> 0 <= #[trigger] key_order_of(fields, n)[q] < n,
    decreases n,
{
    if n > 0 {
        lemma_key_order(fields, n - 1);
        let r = key_order_of(fields, n - 1);
        lemma_insert_pos(fields, r, n - 1, r.len() as int);
        let p = insert_pos(fields, r, n - 1, r.len() as int);
        assert forall|q: int| 0 <= q < n implies 0 <= #[trigger] key_order_of(fields, n)[q] < n by {
            if q < p {
                assert(key_order_of(fields, n)[q] == r[q]);
            } else if q > p {
                assert(key_order_of(fields, n)[q] == r[q - 1]);
            }
        }
    }
}

/// The positions of the fields, ordered by key; equal keys keep their order.
fn key_order(fields: &Vec<(String, JsonValue)>) -> (r: Vec<usize>)
    ensures
        r@.map_values(|x: usize| x as int) == key_order_of(fields@, fields@.len() as int),
        forall|q: int| 0 <= q < r@.len() ==> (#[trigger] r@[q]) < fields@.len(),
{
    let mut r: Vec<usize> = Vec::new();
    let mut i: usize = 0;
    while i < fields.len()
        invariant
            i <= fields@.len(),
            r@.map_values(|x: usize| x as int) == key_order_of(fields@, i as int),
            forall|q: int| 0 <= q < r@.len() ==> (#[trigger] r@[q]) < fields@.len(),
        decreases fields.len() - i,
    {
        let ghost rv = r@.map_values(|x: usize| x as int);
        let mut p: usize = r.len();
        while p > 0 && less_text(fields[i].0.as_str(), fields[r[p - 1]].0.as_str())
            invariant
                i < fields@.len(),
                p <= r@.len(),
                rv == r@.map_values(|x: usize| x as int),
                forall|q: int| 0 <= q < r@.len() ==> (#[trigger] r@[q]) < fields@.len(),
                insert_pos(fields@, rv, i as int, rv.len() as int) == insert_pos(fields@, rv, i as int, p as int),
            decreases p,
        {
            assert(rv[p - 1] == r@[p - 1] as int);
            p -= 1;
        }
        proof {
            if p > 0 {
                assert(rv[p - 1] == r@[p - 1] as int);
            }
        }
        r.insert(p, i);
        assert(r@.map_values(|x: usize| x as int) =~= rv.insert(p as int, i as int));
        i += 1;
    }
    r
}

/// Lines joined with a newline between each two.
pub open spec fn joined(lines: Seq<Seq<char>>) -> Seq<char>
    decreases lines.len(),
{
    if lines.len() == 0 {
        Seq::empty()
    } else if lines.len() == 1 {
        lines[0]
    } else {
        joined(lines.drop_last()) + seq!['\n'] + lines.last()
    }
}

/// Joins lines with a newline between each two.
fn join_lines(lines: &Vec<String>) -> (r: String)
    ensures
        r@ == joined(text_views(lines@)),
{
    let mut out = String::new();
    let mut i: usize = 0;
    while i < lines.len()
        invariant
            i <= lines@.len(),
            out@ == joined(text_views(lines@).take(i as int)),
        decreases lines.len() - i,
    {
        let ghost before = out@;
        proof {
            reveal_strlit("\n");
        }
        if i > 0 {
            out.append("\n");
        }
        out.append(lines[i].as_str());
        assert(text_views(lines@).take(i + 1).drop_last() =~= text_views(lines@).take(i as int));
        assert(text_views(lines@)[i as int] == lines@[i as int]@);
        if i > 0 {
            assert(out@ =~= before + seq!['\n'] + lines@[i as int]@);
        } else {
            assert(out@ =~= lines@[i as int]@);
        }
        i += 1;
    }
    assert(text_views(lines@).take(lines@.len() as int) =~= text_views(lines@));
    out
}

/// The UTF-8 width of a character.
pub open spec fn char_width(c: char) -> int {
    if (c as u32) < 0x80 {
        1
    } else if (c as u32) < 0x800 {
        2
    } else if (c as u32) < 0x10000 {
        3
    } else {
        4
    }
}

/// The UTF-8 length of a text.
pub open spec fn utf8_len(s: Seq<char>) -> int
    decreases s.len(),
{
    if s.len() == 0 {
        0
    } else {
        utf8_len(s.drop_last()) + char_width(s.last())
    }
}

fn utf8_length(s: &str) -> (r: u128)
    ensures
        r == utf8_len(s@),
{
    let cs = chars_of(s);
    let mut total: u128 = 0;
    let mut i: usize = 0;
    while i < cs.len()
        invariant
            cs@ == s@,
            i <= cs@.len(),
            total == utf8_len(s@.take(i as int)),
            total <= 4 * i,
        decreases cs.len() - i,
    {
        let c = cs[i] as u32;
        let w: u128 = if c < 0x80 {
            1
        } else if c < 0x800 {
            2
        } else if c < 0x10000 {
            3
        } else {
            4
        };
        assert(s@.take(i + 1).drop_last() =~= s@.take(i as int));
        total = total + w;
        i += 1;
    }
    assert(s@.take(cs@.len() as int) =~= s@);
    total
}

/// Recorded object shapes: body and type name.
pub open spec fn addons_view(a: Seq<(String, String)>) -> Seq<(Seq<char>, Seq<char>)> {
    a.map_values(|x: (String, String)| (x.0@, x.1@))
}

/// The line of one field in a type body.
pub open spec fn field_line(n: Seq<char>, t: Option<Seq<char>>) -> Seq<char> {
    match t {
        Some(t) => "  "@ + n + ": "@ + t + ";"@,
        None => "  "@ + n + "?: unknown;"@,
    }
}

/// The first recorded shape with body `body`.
pub open spec fn first_body(a: Seq<(Seq<char>, Seq<char>)>, body: Seq<char>) -> Option<int>
    decreases a.len(),
{
    if a.len() == 0 {
        None
    } else {
        match first_body(a.drop_last(), body) {
            Some(k) => Some(k),
            None => if a.last().0 == body {
                Some(a.len() - 1)
            } else {
                None
            },
        }
    }
}

/// Records a shape under `name`: a shape met before keeps the shorter (in UTF-8) of its
/// name and `name`. Gives the name the shape goes by.
pub open spec fn register(a: Seq<(Seq<char>, Seq<char>)>, body: Seq<char>, name: Seq<char>) -> (
    Seq<char>,
    Seq<(Seq<char>, Seq<char>)>,
) {
    match first_body(a, body) {
        Some(k) => if utf8_len(a[k].1) > utf8_len(name) {
            (name, a.update(k, (a[k].0, name)))
        } else {
            (a[k].1, a)
        },
        None => (name, a.push((body, name))),
    }
}

pub open spec fn object_weight(obj: JsonValue) -> int {
    match obj {
        JsonValue::Object(f) => f@.len() as int + 1,
        _ => 0,
    }
}

/// The type of a value named `name`, and the shapes recorded on the way.
pub open spec fn type_spec(name: Seq<char>, obj: JsonValue, a: Seq<(Seq<char>, Seq<char>)>) -> (
    Option<Seq<char>>,
    Seq<(Seq<char>, Seq<char>)>,
)
    decreases obj, object_weight(obj),
{
    match obj {
        JsonValue::Null => (None, a),
        JsonValue::Bool(_) => (Some("boolean"@), a),
        JsonValue::Number(_) => (Some("number"@), a),
        JsonValue::String(_) => (Some("string"@), a),
        JsonValue::Array(arr) => if arr@.len() > 0 {
            let (t, a2) = type_spec(name, arr@[0], a);
            match t {
                Some(t) => (Some(t + "[]"@), a2),
                None => (Some("unknown[]"@), a2),
            }
        } else {
            (Some("unknown[]"@), a)
        },
        JsonValue::Object(fields) => {
            let (lines, a2) = fields_spec(obj, fields@.len() as int, a);
            let (t, a3) = register(a2, joined(lines), capitalized(name));
            (Some(t), a3)
        },
    }
}

/// The lines of the first `j` fields of an object, in key order, and the shapes recorded.
pub open spec fn fields_spec(obj: JsonValue, j: int, a: Seq<(Seq<char>, Seq<char>)>) -> (
    Seq<Seq<char>>,
    Seq<(Seq<char>, Seq<char>)>,
)
    decreases obj, j,
{
    match obj {
        JsonValue::Object(fields) => if j <= 0 || j > fields@.len() {
            (Seq::empty(), a)
        } else {
            let (lines, a2) = fields_spec(obj, j - 1, a);
            let k = key_order_of(fields@, fields@.len() as int)[j - 1];
            if 0 <= k < fields@.len() {
                let (t, a3) = type_spec(fields@[k].0@, fields@[k].1, a2);
                (lines.push(field_line(fields@[k].0@, t)), a3)
            } else {
                (lines, a2)
            }
        },
        _ => (Seq::empty(), a),
    }
}

proof fn lemma_first_body(a: Seq<(Seq<char>, Seq<char>)>, body: Seq<char>, k: int)
    requires
        0 <= k <= a.len(),
        forall|q: int| 0 <= q < k ==> (#[trigger] a[q]).0 != body,
    ensures
        k < a.len() && a[k].0 == body ==> first_body(a, body) == Some(k),
        k == a.len() ==> first_body(a, body).is_none(),
    decreases a.len(),
{
    if a.len() > 0 {
        if k < a.len() {
            if k < a.len() - 1 {
                lemma_first_body(a.drop_last(), body, k);
                assert(a.drop_last()[k] == a[k]);
            } else {
                lemma_first_body(a.drop_last(), body, k);
            }
        } else {
            lemma_first_body(a.drop_last(), body, k - 1);
        }
    }
}

/// Gives the type of a value named `name` (`None` for null, `boolean`, `number`, `string`,
/// `T[]` from the first element of an array, `unknown[]` without one, and for an object the
/// name its shape goes by) and records in `addons` each object shape met with its type name.
pub fn type_of(name: &str, obj: &JsonValue, addons: &mut Vec<(String, String)>) -> (r: Option<String>)
    ensures
        (crate::text::opt_text(r), addons_view(final(addons)@)) == type_spec(name@, *obj, addons_view(old(addons)@)),
    decreases obj, object_weight(*obj),
{
    broadcast use vstd::std_specs::vec::group_vec_axioms;

    match obj {
        JsonValue::Null => None,
        JsonValue::Bool(_) => Some("boolean".to_owned()),
        JsonValue::Number(_) => Some("number".to_owned()),
        JsonValue::String(_) => Some("string".to_owned()),
        JsonValue::Array(arr) => {
            if arr.len() > 0 {
                assert(decreases_to!(arr => arr@[0]));
                match type_of(name, &arr[0], addons) {
                    Some(t) => {
                        return Some(t.concat("[]"));
                    },
                    None => {},
                }
            }
            Some("unknown[]".to_owned())
        },
        JsonValue::Object(fields) => {
            let tname = capitalize(name);
            let order = key_order(fields);
            proof {
                lemma_key_order(fields@, fields@.len() as int);
                assert(order@.len() == order@.map_values(|x: usize| x as int).len());
            }
            let ghost a0 = addons_view(old(addons)@);
            let mut lines: Vec<String> = Vec::new();
            let mut j: usize = 0;
            while j < order.len()
                invariant
                    *obj == JsonValue::Object(*fields),
                    order@.len() == fields@.len(),
                    order@.map_values(|x: usize| x as int) == key_order_of(fields@, fields@.len() as int),
                    forall|q: int| 0 <= q < order@.len() ==> (#[trigger] order@[q]) < fields@.len(),
                    j <= order@.len(),
                    a0 == addons_view(old(addons)@),
                    (text_views(lines@), addons_view(addons@)) == fields_spec(*obj, j as int, a0),
                decreases order.len() - j,
            {
                let idx = order[j];
                assert(order@.map_values(|x: usize| x as int)[j as int] == idx as int);
                let f = &fields[idx];
                assert(decreases_to!(*obj => (*obj)->Object_0));
                assert((*obj)->Object_0 == *fields);
                assert(decreases_to!(*fields => fields@[idx as int]));
                assert(decreases_to!(fields@[idx as int] => fields@[idx as int].1));
                assert(decreases_to!(*obj => fields@[idx as int].1));
                let ghost lv = text_views(lines@);
                let ty = type_of(f.0.as_str(), &f.1, addons);
                let line = match ty {
                    Some(t) => "  ".to_owned().concat(f.0.as_str()).concat(": ").concat(t.as_str()).concat(";"),
                    None => "  ".to_owned().concat(f.0.as_str()).concat("?: unknown;"),
                };
                lines.push(line);
                assert(text_views(lines@) =~= lv.push(field_line(f.0@, crate::text::opt_text(ty))));
                j += 1;
            }
            let body = join_lines(&lines);
            let ghost a2 = addons_view(addons@);
            assert(j == fields@.len());
            let mut k: usize = 0;
            while k < addons.len()
                invariant
                    *obj == JsonValue::Object(*fields),
                    a0 == addons_view(old(addons)@),
                    (text_views(lines@), a2) == fields_spec(*obj, fields@.len() as int, a0),
                    body@ == joined(text_views(lines@)),
                    tname@ == capitalized(name@),
                    a2 == addons_view(addons@),
                    k <= addons@.len(),
                    forall|q: int| 0 <= q < k ==> (#[trigger] a2[q]).0 != body@,
                decreases addons.len() - k,
            {
                assert(a2[k as int] == (addons@[k as int].0@, addons@[k as int].1@));
                if addons[k].0 == body {
                    proof {
                        lemma_first_body(a2, body@, k as int);
                    }
                    if utf8_length(addons[k].1.as_str()) > utf8_length(tname.as_str()) {
                        let key = addons[k].0.clone();
                        addons.set(k, (key, tname));
                        assert(addons_view(addons@) =~= a2.update(k as int, (a2[k as int].0, capitalized(name@))));
                    }
                    return Some(addons[k].1.clone());
                }
                k += 1;
            }
            proof {
                lemma_first_body(a2, body@, k as int);
            }
            addons.push((body, tname.clone()));
            assert(addons_view(addons@) =~= a2.push((body@, capitalized(name@))));
            Some(tname)
        },
    }
}

/// The text of a named type.
pub open spec fn type_text(name: Seq<char>, body: Seq<char>) -> Seq<char> {
    "type "@ + name + " = {\n"@ + body + "\n};"@
}

/// Where a type named `name` goes among `types`, scanning down from `p`.
pub open spec fn name_pos(types: Seq<(Seq<char>, Seq<char>)>, name: Seq<char>, p: int) -> int
    decreases p,
{
    if p > 0 && text_less(name, types[p - 1].0) {
        name_pos(types, name, p - 1)
    } else {
        p
    }
}

/// The root type's text and the other types (name, text) ordered by name, from the first `n`
/// recorded shapes.
pub open spec fn assembled(a: Seq<(Seq<char>, Seq<char>)>, n: int) -> (Seq<char>, Seq<(Seq<char>, Seq<char>)>)
    decreases n,
{
    if n <= 0 {
        (Seq::empty(), Seq::empty())
    } else {
        let (root, types) = assembled(a, n - 1);
        let t = type_text(a[n - 1].1, a[n - 1].0);
        if a[n - 1].1 == "Root"@ {
            (t, types)
        } else {
            (root, types.insert(name_pos(types, a[n - 1].1, types.len() as int), (a[n - 1].1, t)))
        }
    }
}

/// The type description of a JSON value.
pub open spec fn schema_of(json: JsonValue) -> Seq<char> {
    let is_array = json is Array;
    let a = type_spec(if is_array { "ArrayItem"@ } else { "Root"@ }, json, Seq::empty()).1;
    let (root, types) = assembled(a, a.len() as int);
    let schema = root + "\n"@ + joined(types.map_values(|x: (Seq<char>, Seq<char>)| x.1));
    if is_array {
        "type Root = Array<ArrayItem>;"@ + schema
    } else {
        schema
    }
}

proof fn lemma_name_pos(types: Seq<(Seq<char>, Seq<char>)>, name: Seq<char>, p: int)
    requires
        0 <= p <= types.len(),
    ensures
        0 <= name_pos(types, name, p) <= p,
    decreases p,
{
    if p > 0 && text_less(name, types[p - 1].0) {
        lemma_name_pos(types, name, p - 1);
    }
}

/// The type description of a value: `type Root = { ... };` followed by the named types met,
/// each once, ordered by name; for an array, preceded by `type Root = Array<ArrayItem>;` with
/// the element type named `ArrayItem`.
pub fn to_types(json: JsonValue) -> (r: String)
    ensures
        r@ == schema_of(json),
{
    let is_array = match &json {
        JsonValue::Array(_) => true,
        _ => false,
    };
    let root_name = if is_array {
        "ArrayItem"
    } else {
        "Root"
    };
    let mut addons: Vec<(String, String)> = Vec::new();
    assert(addons_view(addons@) =~= Seq::<(Seq<char>, Seq<char>)>::empty());
    let _ = type_of(root_name, &json, &mut addons);
    let ghost a = addons_view(addons@);
    let mut root = String::new();
    let mut types: Vec<(String, String)> = Vec::new();
    let mut i: usize = 0;
    assert(addons_view(types@) =~= Seq::<(Seq<char>, Seq<char>)>::empty());
    while i < addons.len()
        invariant
            a == addons_view(addons@),
            i <= addons@.len(),
            (root@, addons_view(types@)) == assembled(a, i as int),
        decreases addons.len() - i,
    {
        assert(a[i as int] == (addons@[i as int].0@, addons@[i as int].1@));
        let (body, name) = (&addons[i].0, &addons[i].1);
        let t = "type ".to_owned().concat(name.as_str()).concat(" = {\n").concat(body.as_str()).concat(
            "\n};",
        );
        if crate::text::eq_str(name, "Root") {
            root = t;
        } else {
            let ghost tv = addons_view(types@);
            let mut p: usize = types.len();
            while p > 0 && less_text(name.as_str(), types[p - 1].0.as_str())
                invariant
                    p <= types@.len(),
                    tv == addons_view(types@),
                    name_pos(tv, name@, tv.len() as int) == name_pos(tv, name@, p as int),
                decreases p,
            {
                assert(tv[p - 1] == (types@[p - 1].0@, types@[p - 1].1@));
                p -= 1;
            }
            proof {
                if p > 0 {
                    assert(tv[p - 1] == (types@[p - 1].0@, types@[p - 1].1@));
                }
            }
            types.insert(p, (name.clone(), t));
            assert(addons_view(types@) =~= tv.insert(p as int, (name@, t@)));
        }
        i += 1;
    }
    let mut texts: Vec<String> = Vec::new();
    let mut j: usize = 0;
    while j < types.len()
        invariant
            j <= types@.len(),
            text_views(texts@) == addons_view(types@).map_values(|x: (Seq<char>, Seq<char>)| x.1).take(j as int),
        decreases types.len() - j,
    {
        let ghost before = text_views(texts@);
        let ghost m = addons_view(types@).map_values(|x: (Seq<char>, Seq<char>)| x.1);
        texts.push(types[j].1.clone());
        assert(m[j as int] == types@[j as int].1@);
        assert(m.take(j + 1) =~= m.take(j as int).push(m[j as int]));
        assert(text_views(texts@) =~= before.push(types@[j as int].1@));
        j += 1;
    }
    assert(addons_view(types@).map_values(|x: (Seq<char>, Seq<char>)| x.1).take(types@.len() as int)
        =~= addons_view(types@).map_values(|x: (Seq<char>, Seq<char>)| x.1));
    let head = root.concat("\n");
    let tail = join_lines(&texts);
    let schema = head.concat(tail.as_str());
    if is_array {
        "type Root = Array<ArrayItem>;".to_owned().concat(schema.as_str())
    } else {
        schema
    }
}

} // verus!
