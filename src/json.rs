use vstd::prelude::*;

verus! {

/// A JSON number: its decimal text as serde_json prints it (shortest form for
/// a float, so `1.50` reads `1.5`), and its value when it is an integer that
/// fits in an `i64`.
pub struct JsonNumber {
    pub int: Option<i64>,
    pub text: String,
}

/// A JSON document tree. An object keeps its members in document order.
pub enum Json {
    Null,
    Bool(bool),
    Number(JsonNumber),
    Str(String),
    Array(Vec<Json>),
    Object(Vec<(String, Json)>),
}

/// The value of the first member named `key`, if any.
pub open spec fn member(es: Seq<(String, Json)>, key: Seq<char>) -> Option<Json>
    decreases es.len(),
{
    if es.len() == 0 {
        None
    } else {
        match member(es.drop_last(), key) {
            Some(v) => Some(v),
            None => if es.last().0@ == key {
                Some(es.last().1)
            } else {
                None
            },
        }
    }
}

/// The value of member `key` of an object; `None` for anything else.
pub open spec fn field_of(j: Json, key: Seq<char>) -> Option<Json> {
    match j {
        Json::Object(es) => member(es@, key),
        _ => None,
    }
}

/// The members of an object other than those named `a` or `b`, in order.
pub open spec fn others(es: Seq<(String, Json)>, a: Seq<char>, b: Seq<char>) -> Seq<(String, Json)>
    decreases es.len(),
{
    if es.len() == 0 {
        Seq::empty()
    } else {
        let rest = others(es.drop_last(), a, b);
        if es.last().0@ == a || es.last().0@ == b {
            rest
        } else {
            rest.push(es.last())
        }
    }
}

/// An array of strings, read as `v`.
pub open spec fn strings_of(j: Json, v: Seq<String>) -> bool {
    match j {
        Json::Array(xs) => v.len() == xs@.len() && forall|i: int|
            0 <= i < v.len() ==> #[trigger] xs@[i] == Json::Str(v[i]),
        _ => false,
    }
}

/// An array whose items are all strings.
pub open spec fn is_strings(j: Json) -> bool {
    match j {
        Json::Array(xs) => forall|i: int| 0 <= i < xs@.len() ==> (#[trigger] xs@[i]) is Str,
        _ => false,
    }
}

/// Two numbers with the same text and integer value.
pub open spec fn same_number(a: JsonNumber, b: JsonNumber) -> bool {
    a.int == b.int && a.text@ == b.text@
}

/// The value of a number that fits in an `i32`.
pub open spec fn as_i32(j: Json) -> Option<i32> {
    match j {
        Json::Number(n) => match n.int {
            Some(v) => if i32::MIN <= v <= i32::MAX {
                Some(v as i32)
            } else {
                None
            },
            None => None,
        },
        _ => None,
    }
}

proof fn lemma_member_extend(es: Seq<(String, Json)>, k: int, key: Seq<char>)
    requires
        0 <= k <= es.len(),
        member(es.take(k), key) is Some,
    ensures
        member(es, key) == member(es.take(k), key),
    decreases es.len() - k,
{
    if k < es.len() {
        assert(es.take(k + 1).drop_last() =~= es.take(k));
        lemma_member_extend(es, k + 1, key);
    } else {
        assert(es.take(k) =~= es);
    }
}

/// Looks up the first member named `key`.
pub fn find_member<'a>(es: &'a Vec<(String, Json)>, key: &str) -> (r: Option<&'a Json>)
    ensures
        match r {
            Some(v) => member(es@, key@) == Some(*v),
            None => member(es@, key@) is None,
        },
{
    let mut i: usize = 0;
    while i < es.len()
        invariant
            i <= es.len(),
            member(es@.take(i as int), key@) is None,
        decreases es.len() - i,
    {
        assert(es@.take(i + 1).drop_last() =~= es@.take(i as int));
        if str_eq(es[i].0.as_str(), key) {
            assert(member(es@.take(i + 1), key@) == Some(es@[i as int].1));
            proof {
                lemma_member_extend(es@, i + 1, key@);
            }
            return Some(&es[i].1);
        }
        i += 1;
    }
    assert(es@.take(i as int) =~= es@);
    None
}

/// Looks up member `key` of an object.
pub fn get_field<'a>(j: &'a Json, key: &str) -> (r: Option<&'a Json>)
    ensures
        match r {
            Some(v) => field_of(*j, key@) == Some(*v),
            None => field_of(*j, key@) is None,
        },
{
    match j {
        Json::Object(es) => find_member(es, key),
        _ => None,
    }
}

/// Character-wise equality of two strings.
pub fn str_eq(a: &str, b: &str) -> (r: bool)
    ensures
        r == (a@ == b@),
{
    let n = a.unicode_len();
    if n != b.unicode_len() {
        return false;
    }
    let mut i: usize = 0;
    while i < n
        invariant
            n == a@.len() == b@.len(),
            i <= n,
            forall|k: int| 0 <= k < i ==> a@[k] == b@[k],
        decreases n - i,
    {
        if a.get_char(i) != b.get_char(i) {
            return false;
        }
        i += 1;
    }
    assert(a@ =~= b@);
    true
}

/// Reads an array of strings.
pub fn read_strings(j: &Json) -> (r: Option<Vec<String>>)
    ensures
        match r {
            Some(v) => is_strings(*j) && strings_of(*j, v@),
            None => !is_strings(*j),
        },
{
    match j {
        Json::Array(xs) => {
            let mut out: Vec<String> = Vec::new();
            let mut i: usize = 0;
            while i < xs.len()
                invariant
                    *j == Json::Array(*xs),
                    i <= xs@.len(),
                    out@.len() == i,
                    forall|k: int| 0 <= k < i ==> (#[trigger] xs@[k]) == Json::Str(out@[k]),
                decreases xs.len() - i,
            {
                match &xs[i] {
                    Json::Str(s) => {
                        out.push(s.clone());
                    },
                    _ => {
                        assert(j->Array_0@ == xs@);
                        return None;
                    },
                }
                i += 1;
            }
            assert(forall|k: int| 0 <= k < xs@.len() ==> (#[trigger] xs@[k]) is Str);
            Some(out)
        },
        _ => None,
    }
}

/// No key occurs twice.
pub open spec fn distinct_keys<T>(s: Seq<(String, T)>) -> bool {
    forall|i: int, j: int| 0 <= i < j < s.len() ==> (#[trigger] s[i]).0@ != (#[trigger] s[j]).0@
}

/// Whether no key occurs twice.
pub fn has_distinct_keys<T>(v: &Vec<(String, T)>) -> (r: bool)
    ensures
        r == distinct_keys(v@),
{
    let mut j: usize = 0;
    while j < v.len()
        invariant
            j <= v@.len(),
            forall|a: int, b: int| 0 <= a < b < j ==> (#[trigger] v@[a]).0@ != (#[trigger] v@[b]).0@,
        decreases v.len() - j,
    {
        let mut i: usize = 0;
        while i < j
            invariant
                i <= j < v@.len(),
                forall|a: int| 0 <= a < i ==> (#[trigger] v@[a]).0@ != v@[j as int].0@,
            decreases j - i,
        {
            if str_eq(v[i].0.as_str(), v[j].0.as_str()) {
                assert(v@[i as int].0@ == v@[j as int].0@);
                return false;
            }
            i += 1;
        }
        j += 1;
    }
    true
}

/// Copies a number, text and value alike.
pub fn copy_number(n: &JsonNumber) -> (r: JsonNumber)
    ensures
        same_number(r, *n),
{
    JsonNumber { int: n.int, text: n.text.clone() }
}

/// Reads a number that fits in an `i32`.
pub fn read_i32(j: &Json) -> (r: Option<i32>)
    ensures
        r == as_i32(*j),
{
    match j {
        Json::Number(n) => match n.int {
            Some(v) => if i32::MIN as i64 <= v && v <= i32::MAX as i64 {
                Some(v as i32)
            } else {
                None
            },
            None => None,
        },
        _ => None,
    }
}

} // verus!
