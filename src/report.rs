use vstd::prelude::*;

use crate::error::{InSightError, SolField};
use crate::json::{distinct_keys, field_of, has_distinct_keys, find_member, is_strings, member, others, read_strings, str_eq, strings_of, Json};
use crate::sol::{first_bad_field, measurement_at, sol_of, str_field, time_field, wind_map_at, Sol};
use crate::validity::{checks_decode, checks_of, InSightSolValidation, InSightValidityChecks};

verus! {

/// The value of a string of ASCII digits, most significant first.
pub open spec fn digits_value(s: Seq<char>) -> int
    decreases s.len(),
{
    if s.len() == 0 {
        0
    } else {
        10 * digits_value(s.drop_last()) + (s.last() as int - '0' as int)
    }
}

pub open spec fn all_digits(s: Seq<char>) -> bool {
    s.len() > 0 && forall|i: int| 0 <= i < s.len() ==> '0' <= #[trigger] s[i] <= '9'
}

/// A decimal `i32`: an optional `+` or `-`, then at least one digit, in range.
pub open spec fn spec_parse_i32(s: Seq<char>) -> Option<i32> {
    let signed = s.len() > 0 && (s[0] == '-' || s[0] == '+');
    let body = if signed {
        s.skip(1)
    } else {
        s
    };
    let v = if s.len() > 0 && s[0] == '-' {
        -digits_value(body)
    } else {
        digits_value(body)
    };
    if all_digits(body) && i32::MIN <= v <= i32::MAX {
        Some(v as i32)
    } else {
        None
    }
}

/// Relies on `str::parse::<i32>` (std's `FromStr for i32`): an optional sign,
/// then one or more ASCII digits, with overflow an error.
#[verifier::external_body]
fn parse_i32(s: &str) -> (r: Option<i32>)
    ensures
        r == spec_parse_i32(s@),
{
    s.parse::<i32>().ok()
}

/// `a` comes before `b` by characters, at the first place where they differ.
pub open spec fn lex_less(a: Seq<char>, b: Seq<char>) -> bool {
    exists|i: int|
        0 <= i < a.len() && i < b.len() && (a[i] as int) < (b[i] as int) && forall|j: int|
            0 <= j < i ==> #[trigger] a[j] == b[j]
}

/// The order of selection between two numeric keys: by value, then the
/// shorter key, then by characters.
pub open spec fn precedes(a: Seq<char>, b: Seq<char>) -> bool {
    let x = spec_parse_i32(a).unwrap() as int;
    let y = spec_parse_i32(b).unwrap() as int;
    x < y || (x == y && (a.len() < b.len() || (a.len() == b.len() && lex_less(a, b))))
}

proof fn lemma_lex_asym(a: Seq<char>, b: Seq<char>)
    requires
        lex_less(a, b),
    ensures
        !lex_less(b, a),
{
    let i = choose|i: int|
        0 <= i < a.len() && i < b.len() && (a[i] as int) < (b[i] as int) && forall|j: int|
            0 <= j < i ==> #[trigger] a[j] == b[j];
    if lex_less(b, a) {
        let k = choose|k: int|
            0 <= k < b.len() && k < a.len() && (b[k] as int) < (a[k] as int) && forall|j: int|
                0 <= j < k ==> #[trigger] b[j] == a[j];
        if k < i {
            assert(a[k] == b[k]);
        } else if i < k {
            assert(b[i] == a[i]);
        }
    }
}

proof fn lemma_lex_trans(a: Seq<char>, b: Seq<char>, c: Seq<char>)
    requires
        lex_less(a, b),
        lex_less(b, c),
    ensures
        lex_less(a, c),
{
    let i = choose|i: int|
        0 <= i < a.len() && i < b.len() && (a[i] as int) < (b[i] as int) && forall|j: int|
            0 <= j < i ==> #[trigger] a[j] == b[j];
    let k = choose|k: int|
        0 <= k < b.len() && k < c.len() && (b[k] as int) < (c[k] as int) && forall|j: int|
            0 <= j < k ==> #[trigger] b[j] == c[j];
    let m = if i < k { i } else { k };
    if i < k {
        assert(b[i] == c[i]);
    } else if k < i {
        assert(a[k] == b[k]);
    }
    assert forall|j: int| 0 <= j < m implies #[trigger] a[j] == c[j] by {
        assert(a[j] == b[j]);
        assert(b[j] == c[j]);
    }
}

proof fn lemma_lex_total(a: Seq<char>, b: Seq<char>, k: int)
    requires
        a.len() == b.len(),
        a != b,
        0 <= k <= a.len(),
        forall|j: int| 0 <= j < k ==> #[trigger] a[j] == b[j],
    ensures
        lex_less(a, b) || lex_less(b, a),
    decreases a.len() - k,
{
    if k == a.len() {
        assert(a =~= b);
    } else if a[k] == b[k] {
        lemma_lex_total(a, b, k + 1);
    } else if (a[k] as int) < (b[k] as int) {
        assert(0 <= k < a.len() && k < b.len() && (a[k] as int) < (b[k] as int) && forall|j: int|
            0 <= j < k ==> #[trigger] a[j] == b[j]);
    } else {
        assert((b[k] as int) < (a[k] as int));
        assert(forall|j: int| 0 <= j < k ==> #[trigger] b[j] == a[j]);
        assert(0 <= k < b.len() && k < a.len() && (b[k] as int) < (a[k] as int) && forall|j: int|
            0 <= j < k ==> #[trigger] b[j] == a[j]);
    }
}

/// `precedes` is a strict total order on distinct numeric keys.
pub proof fn lemma_precedes_order(a: Seq<char>, b: Seq<char>, c: Seq<char>)
    requires
        spec_parse_i32(a) is Some,
        spec_parse_i32(b) is Some,
        spec_parse_i32(c) is Some,
    ensures
        precedes(a, b) ==> !precedes(b, a),
        precedes(a, b) && precedes(b, c) ==> precedes(a, c),
        a != b ==> precedes(a, b) || precedes(b, a),
{
    if precedes(a, b) && a.len() == b.len() && lex_less(a, b) {
        lemma_lex_asym(a, b);
    }
    if precedes(a, b) && precedes(b, c) && a.len() == b.len() && b.len() == c.len() && lex_less(a, b)
        && lex_less(b, c) {
        lemma_lex_trans(a, b, c);
    }
    if a != b && a.len() == b.len() {
        lemma_lex_total(a, b, 0);
    }
}

/// Character-wise `lex_less` on two strings of equal length.
fn lex_less_exec(a: &str, b: &str) -> (r: bool)
    requires
        a@.len() == b@.len(),
    ensures
        r == lex_less(a@, b@),
{
    let n = a.unicode_len();
    let mut i: usize = 0;
    while i < n
        invariant
            n == a@.len() == b@.len(),
            i <= n,
            forall|j: int| 0 <= j < i ==> #[trigger] a@[j] == b@[j],
        decreases n - i,
    {
        let x = a.get_char(i);
        let y = b.get_char(i);
        if x != y {
            if (x as u32) < (y as u32) {
                assert(0 <= i < a@.len() && i < b@.len() && (a@[i as int] as int) < (b@[i as int] as int));
                return true;
            } else {
                proof {
                    if lex_less(a@, b@) {
                        let k = choose|k: int|
                            0 <= k < a@.len() && k < b@.len() && (a@[k] as int) < (b@[k] as int)
                                && forall|j: int| 0 <= j < k ==> #[trigger] a@[j] == b@[j];
                        if k > i {
                            assert(a@[i as int] == b@[i as int]);
                        }
                    }
                }
                return false;
            }
        }
        i += 1;
    }
    proof {
        assert(a@ =~= b@);
        if lex_less(a@, b@) {
            let k = choose|k: int|
                0 <= k < a@.len() && k < b@.len() && (a@[k] as int) < (b@[k] as int) && forall|j: int|
                    0 <= j < k ==> #[trigger] a@[j] == b@[j];
        }
    }
    false
}

/// Whether numeric key `a`, of value `x`, precedes key `b`, of value `y`.
fn precedes_exec(a: &str, x: i32, b: &str, y: i32) -> (r: bool)
    requires
        spec_parse_i32(a@) == Some(x),
        spec_parse_i32(b@) == Some(y),
    ensures
        r == precedes(a@, b@),
{
    if x != y {
        return x < y;
    }
    let la = a.unicode_len();
    let lb = b.unicode_len();
    if la != lb {
        return la < lb;
    }
    lex_less_exec(a, b)
}

/// A weather report: the sols it lists, their validity checks, and the data
/// of each sol under its key.
pub struct InSight {
    pub sol_keys: Vec<String>,
    pub validity_checks: InSightValidityChecks,
    pub sols: Vec<(String, Json)>,
}

pub open spec fn report_decodes(j: Json) -> bool {
    &&& j is Object
    &&& field_of(j, "sol_keys"@) matches Some(k) && is_strings(k)
    &&& field_of(j, "validity_checks"@) matches Some(v) && checks_decode(v)
    &&& distinct_keys(others(j->Object_0@, "sol_keys"@, "validity_checks"@))
}

/// `r` is the report document `j`: its two reserved members decoded, every
/// other member kept as it stands, in order.
pub open spec fn report_of(j: Json, r: InSight) -> bool {
    &&& report_decodes(j)
    &&& strings_of(field_of(j, "sol_keys"@).unwrap(), r.sol_keys@)
    &&& checks_of(field_of(j, "validity_checks"@).unwrap(), r.validity_checks)
    &&& r.sols@ == others(j->Object_0@, "sol_keys"@, "validity_checks"@)
}

/// The keys of the valid sols of the validity checks, in order.
pub open spec fn valid_keys(vs: Seq<(String, InSightSolValidation)>) -> Seq<String>
    decreases vs.len(),
{
    if vs.len() == 0 {
        Seq::empty()
    } else if vs.last().1.spec_is_valid() {
        valid_keys(vs.drop_last()).push(vs.last().0)
    } else {
        valid_keys(vs.drop_last())
    }
}

impl InSight {
    /// No sol has two data entries or two validity entries.
    pub open spec fn wf(&self) -> bool {
        &&& distinct_keys(self.sols@)
        &&& distinct_keys(self.validity_checks.sols@)
    }

    /// Sol `k` is marked valid in the validity checks.
    pub open spec fn marked_valid(&self, k: Seq<char>) -> bool {
        exists|i: int|
            0 <= i < self.validity_checks.sols@.len() && (#[trigger] self.validity_checks.sols@[i]).0@
                == k && self.validity_checks.sols@[i].1.spec_is_valid()
    }

    /// Sol `k` may be selected: marked valid, with data, and numeric.
    pub open spec fn is_candidate(&self, k: Seq<char>) -> bool {
        &&& self.marked_valid(k)
        &&& member(self.sols@, k) is Some
        &&& spec_parse_i32(k) is Some
    }

    /// The `i`-th entry of the validity checks names a candidate.
    pub open spec fn candidate_at(&self, i: int) -> bool {
        &&& self.validity_checks.sols@[i].1.spec_is_valid()
        &&& member(self.sols@, self.validity_checks.sols@[i].0@) is Some
        &&& spec_parse_i32(self.validity_checks.sols@[i].0@) is Some
    }

    /// The key of entry `i` of the validity checks.
    pub open spec fn key_at(&self, i: int) -> Seq<char> {
        self.validity_checks.sols@[i].0@
    }

    /// The candidate that a scan of the first `n` entries keeps: one that no
    /// later entry precedes.
    pub open spec fn best_of(&self, n: int) -> Option<Seq<char>>
        decreases n,
    {
        if n <= 0 {
            None
        } else {
            let p = self.best_of(n - 1);
            if self.candidate_at(n - 1) && (p is None || precedes(self.key_at(n - 1), p.unwrap())) {
                Some(self.key_at(n - 1))
            } else {
                p
            }
        }
    }

    /// `x` is a candidate that precedes every other candidate.
    pub open spec fn is_least(&self, x: Seq<char>) -> bool {
        &&& self.is_candidate(x)
        &&& forall|k: Seq<char>| #[trigger] self.is_candidate(k) && k != x ==> precedes(x, k)
    }

    /// The sol to keep: the least candidate by value, then by length, then by
    /// characters (`lemma_earliest_key_least`); `None` where there is none.
    pub open spec fn earliest_key(&self) -> Option<Seq<char>> {
        self.best_of(self.validity_checks.sols@.len() as int)
    }


    /// Decodes a report document. Fails with `MalformedReport` when it is not
    /// an object, or `sol_keys` or `validity_checks` is missing or misshapen;
    /// the other members are kept undecoded.
    pub fn from_json(doc: Json) -> (r: Result<InSight, InSightError>)
        ensures
            match r {
                Ok(ins) => report_of(doc, ins) && ins.wf(),
                Err(e) => !report_decodes(doc) && e == InSightError::MalformedReport,
            },
    {
        let ghost d = doc;
        let mut es = match doc {
            Json::Object(es) => es,
            _ => return Err(InSightError::MalformedReport),
        };
        let sol_keys = match find_member(&es, "sol_keys") {
            Some(k) => match read_strings(k) {
                Some(v) => v,
                None => return Err(InSightError::MalformedReport),
            },
            None => return Err(InSightError::MalformedReport),
        };
        let validity_checks = match find_member(&es, "validity_checks") {
            Some(v) => match InSightValidityChecks::decode(v) {
                Some(c) => c,
                None => return Err(InSightError::MalformedReport),
            },
            None => return Err(InSightError::MalformedReport),
        };
        let ghost all = es@;
        let n: usize = es.len();
        let mut sols: Vec<(String, Json)> = Vec::new();
        let mut i: usize = 0;
        while es.len() > 0
            invariant
                d is Object,
                d->Object_0@ == all,
                all.len() == i + es@.len(),
                all.len() == n,
                es@ == all.skip(i as int),
                sols@ == others(all.take(i as int), "sol_keys"@, "validity_checks"@),
            decreases es.len(),
        {
            let e = es.remove(0);
            assert(all.take(i + 1).drop_last() =~= all.take(i as int));
            assert(e == all[i as int]);
            assert(all.skip(i as int).remove(0) =~= all.skip(i + 1));
            if !str_eq(e.0.as_str(), "sol_keys") && !str_eq(e.0.as_str(), "validity_checks") {
                sols.push(e);
            }
            i += 1;
        }
        assert(all.take(i as int) =~= all);
        if !has_distinct_keys(&sols) {
            return Err(InSightError::MalformedReport);
        }
        Ok(InSight { sol_keys, validity_checks, sols })
    }

    /// The keys of the sols that the validity checks mark valid, in order.
    pub fn valid_sols(&self) -> (r: Vec<String>)
        ensures
            r@ == valid_keys(self.validity_checks.sols@),
            self.wf() ==> forall|a: int, b: int| 0 <= a < b < r@.len() ==> (#[trigger] r@[a])@ != (#[trigger] r@[b])@,
    {
        let vs = &self.validity_checks.sols;
        let mut out: Vec<String> = Vec::new();
        let mut i: usize = 0;
        while i < vs.len()
            invariant
                *vs == self.validity_checks.sols,
                i <= vs@.len(),
                out@ == valid_keys(vs@.take(i as int)),
                forall|a: int| 0 <= a < out@.len() ==> exists|x: int| 0 <= x < i && #[trigger] out@[a] == vs@[x].0,
                self.wf() ==> forall|a: int, b: int|
                    0 <= a < b < out@.len() ==> (#[trigger] out@[a])@ != (#[trigger] out@[b])@,
            decreases vs.len() - i,
        {
            assert(vs@.take(i + 1).drop_last() =~= vs@.take(i as int));
            if vs[i].1.is_valid() {
                let k = vs[i].0.clone();
                proof {
                    if self.wf() {
                        assert forall|a: int| 0 <= a < out@.len() implies (#[trigger] out@[a])@ != k@ by {
                            let x = choose|x: int| 0 <= x < i && #[trigger] out@[a] == vs@[x].0;
                            assert(vs@[x].0@ != vs@[i as int].0@);
                        }
                    }
                }
                out.push(k);
                proof {
                    assert forall|a: int| 0 <= a < out@.len() implies exists|x: int|
                        0 <= x < i + 1 && #[trigger] out@[a] == vs@[x].0 by {
                        if a == out@.len() - 1 {
                            assert(out@[a] == vs@[i as int].0);
                        } else {
                            let x = choose|x: int| 0 <= x < i && #[trigger] out@[a] == vs@[x].0;
                        }
                    }
                }
            }
            i += 1;
        }
        assert(vs@.take(i as int) =~= vs@);
        out
    }

    /// The key of the sol to keep (`earliest_key`): marked valid, present
    /// among the data, numeric, and first by `precedes`; `None` where no sol
    /// is all three.
    pub fn earliest_valid_sol_date(&self) -> (r: Option<String>)
        ensures
            match r {
                Some(s) => self.earliest_key() == Some(s@),
                None => self.earliest_key() is None,
            },
    {
        let vs = &self.validity_checks.sols;
        let mut best: Option<(usize, i32)> = None;
        let mut i: usize = 0;
        while i < vs.len()
            invariant
                *vs == self.validity_checks.sols,
                i <= vs@.len(),
                match best {
                    None => self.best_of(i as int) is None,
                    Some((b, v)) => {
                        &&& b < i
                        &&& self.best_of(i as int) == Some(self.key_at(b as int))
                        &&& spec_parse_i32(self.key_at(b as int)) == Some(v)
                    },
                },
            decreases vs.len() - i,
        {
            let key = vs[i].0.as_str();
            if vs[i].1.is_valid() && find_member(&self.sols, key).is_some() {
                match parse_i32(key) {
                    Some(v) => {
                        let better = match best {
                            None => true,
                            Some((b, bv)) => precedes_exec(key, v, vs[b].0.as_str(), bv),
                        };
                        if better {
                            best = Some((i, v));
                        }
                    },
                    None => {},
                }
            }
            i += 1;
        }
        match best {
            None => None,
            Some((b, _)) => Some(vs[b].0.clone()),
        }
    }


    /// Decodes the data of sol `id`; `MissingBucket` where the report has none.
    pub fn materialize(&self, id: &str) -> (r: Result<Sol, InSightError>)
        ensures
            match member(self.sols@, id@) {
                None => r == Err::<Sol, InSightError>(InSightError::MissingBucket),
                Some(raw) => match first_bad_field(raw) {
                    Some(f) => r == Err::<Sol, InSightError>(InSightError::FieldDecodeError(f)),
                    None => r matches Ok(s) && sol_of(id@, raw, s),
                },
            },
    {
        match find_member(&self.sols, id) {
            Some(raw) => Sol::decode(id.to_owned(), raw),
            None => Err(InSightError::MissingBucket),
        }
    }

    /// Selects the sol `earliest_key` names and decodes it; no other sol's
    /// data is read.
    pub fn earliest_valid_sol(&self) -> (r: Result<Sol, InSightError>)
        ensures
            match self.earliest_key() {
                None => r == Err::<Sol, InSightError>(InSightError::NoValidBucket),
                Some(k) => match first_bad_field(member(self.sols@, k).unwrap()) {
                    Some(f) => r == Err::<Sol, InSightError>(InSightError::FieldDecodeError(f)),
                    None => r matches Ok(s) && s.sol_date@ == k && sol_of(
                        k,
                        member(self.sols@, k).unwrap(),
                        s,
                    ),
                },
            },
    {
        match self.earliest_valid_sol_date() {
            None => Err(InSightError::NoValidBucket),
            Some(d) => {
                proof {
                    lemma_earliest_key_least(*self);
                }
                self.materialize(d.as_str())
            },
        }
    }
}



impl InSight {
    /// Sol `k` is named in the checked list.
    pub open spec fn checked(&self, k: Seq<char>) -> bool {
        exists|i: int|
            0 <= i < self.validity_checks.sols_checked@.len()
                && (#[trigger] self.validity_checks.sols_checked@[i])@ == k
    }

    /// Sol `k` has an entry in the validity checks.
    pub open spec fn has_entry(&self, k: Seq<char>) -> bool {
        exists|i: int|
            0 <= i < self.validity_checks.sols@.len() && (#[trigger] self.validity_checks.sols@[i]).0@
                == k
    }

    /// Sol `k` is checked, has data, and is numeric.
    pub open spec fn checked_with_data(&self, k: Seq<char>) -> bool {
        &&& self.checked(k)
        &&& member(self.sols@, k) is Some
        &&& spec_parse_i32(k) is Some
    }
}


proof fn lemma_best_of(r: InSight, n: int)
    requires
        0 <= n <= r.validity_checks.sols@.len(),
    ensures
        match r.best_of(n) {
            None => forall|j: int| 0 <= j < n ==> !#[trigger] r.candidate_at(j),
            Some(x) => (exists|j: int| 0 <= j < n && r.candidate_at(j) && #[trigger] r.key_at(j) == x)
                && forall|j: int|
                0 <= j < n && #[trigger] r.candidate_at(j) ==> r.key_at(j) == x || precedes(x, r.key_at(j)),
        },
    decreases n,
{
    if n > 0 {
        lemma_best_of(r, n - 1);
        let p = r.best_of(n - 1);
        let c = r.key_at(n - 1);
        if let Some(x) = p {
            let w = choose|j: int| 0 <= j < n - 1 && r.candidate_at(j) && #[trigger] r.key_at(j) == x;
            assert(r.candidate_at(w));
            if r.candidate_at(n - 1) {
                lemma_precedes_order(c, x, x);
                if precedes(c, x) {
                    assert forall|j: int| 0 <= j < n && #[trigger] r.candidate_at(j) implies r.key_at(j) == c
                        || precedes(c, r.key_at(j)) by {
                        if j < n - 1 && r.key_at(j) != x {
                            lemma_precedes_order(c, x, r.key_at(j));
                        }
                    }
                } else {
                    lemma_precedes_order(x, c, c);
                }
            }
        }
    }
}

/// `earliest_key` is the least candidate, and `None` only where there is no
/// candidate; so it depends neither on the order of the validity checks nor
/// on the order of the data.
pub proof fn lemma_earliest_key_least(r: InSight)
    ensures
        match r.earliest_key() {
            None => forall|k: Seq<char>| !#[trigger] r.is_candidate(k),
            Some(x) => r.is_least(x),
        },
{
    let n = r.validity_checks.sols@.len() as int;
    lemma_best_of(r, n);
    match r.earliest_key() {
        None => {
            assert forall|k: Seq<char>| !#[trigger] r.is_candidate(k) by {
                if r.is_candidate(k) {
                    let j = choose|j: int|
                        0 <= j < n && (#[trigger] r.validity_checks.sols@[j]).0@ == k
                            && r.validity_checks.sols@[j].1.spec_is_valid();
                    assert(r.candidate_at(j));
                }
            }
        },
        Some(x) => {
            let w = choose|j: int| 0 <= j < n && r.candidate_at(j) && #[trigger] r.key_at(j) == x;
            assert(r.validity_checks.sols@[w].0@ == x);
            assert forall|k: Seq<char>| #[trigger] r.is_candidate(k) && k != x implies precedes(x, k) by {
                let j = choose|j: int|
                    0 <= j < n && (#[trigger] r.validity_checks.sols@[j]).0@ == k
                        && r.validity_checks.sols@[j].1.spec_is_valid();
                assert(r.candidate_at(j));
                assert(r.key_at(j) == k);
            }
        },
    }
}

/// At most one candidate precedes all others.
pub proof fn lemma_least_unique(r: InSight, x: Seq<char>, y: Seq<char>)
    requires
        r.is_least(x),
        r.is_least(y),
    ensures
        x == y,
{
    if x != y {
        lemma_precedes_order(x, y, y);
    }
}

/// The earliest sol depends only on which keys are candidates: not on the
/// order of the entries, on `sol_keys`, on the checked list, or on entries
/// that are not candidates (invalid, without data, or not numeric).
pub proof fn lemma_earliest_key_same_candidates(r: InSight, q: InSight)
    requires
        forall|k: Seq<char>| r.is_candidate(k) <==> q.is_candidate(k),
    ensures
        r.earliest_key() == q.earliest_key(),
{
    lemma_earliest_key_least(r);
    lemma_earliest_key_least(q);
    match (r.earliest_key(), q.earliest_key()) {
        (Some(x), Some(y)) => {
            assert(q.is_least(x));
            lemma_least_unique(q, x, y);
        },
        (Some(x), None) => {
            assert(q.is_candidate(x));
        },
        (None, Some(y)) => {
            assert(r.is_candidate(y));
        },
        (None, None) => {},
    }
}

/// Where every entry of the validity checks is valid and has data, and the
/// checked list names exactly the sols that have an entry, the earliest sol is
/// a checked sol with data of least value among them.
pub proof fn lemma_all_valid_earliest(r: InSight)
    requires
        forall|i: int|
            0 <= i < r.validity_checks.sols@.len() ==> (#[trigger] r.validity_checks.sols@[i]).1.spec_is_valid()
                && member(r.sols@, r.validity_checks.sols@[i].0@) is Some,
        forall|k: Seq<char>| r.checked(k) <==> r.has_entry(k),
    ensures
        match r.earliest_key() {
            None => forall|k: Seq<char>| !#[trigger] r.checked_with_data(k),
            Some(x) => r.checked_with_data(x) && forall|k: Seq<char>|
                #[trigger] r.checked_with_data(k) ==> spec_parse_i32(x).unwrap() <= spec_parse_i32(k).unwrap(),
        },
{
    lemma_earliest_key_least(r);
    assert forall|k: Seq<char>| #[trigger] r.checked_with_data(k) <==> r.is_candidate(k) by {
        if r.checked_with_data(k) {
            assert(r.has_entry(k));
            let i = choose|i: int|
                0 <= i < r.validity_checks.sols@.len() && (#[trigger] r.validity_checks.sols@[i]).0@ == k;
            assert(r.validity_checks.sols@[i].1.spec_is_valid());
        }
        if r.is_candidate(k) {
            let i = choose|i: int|
                0 <= i < r.validity_checks.sols@.len() && (#[trigger] r.validity_checks.sols@[i]).0@ == k
                    && r.validity_checks.sols@[i].1.spec_is_valid();
            assert(r.has_entry(k));
        }
    }
}

/// With no entries in the validity checks there is no earliest sol.
pub proof fn lemma_empty_checks_no_sol(r: InSight)
    requires
        r.validity_checks.sols@.len() == 0,
    ensures
        r.earliest_key() is None,
{
}

/// A sol without data is never the earliest, even when marked valid.
pub proof fn lemma_selected_has_data(r: InSight, k: Seq<char>)
    requires
        member(r.sols@, k) is None,
    ensures
        r.earliest_key() != Some(k),
{
    lemma_earliest_key_least(r);
}

/// A sol whose key is not a number is never the earliest, even when marked valid.
pub proof fn lemma_selected_is_numeric(r: InSight, k: Seq<char>)
    requires
        spec_parse_i32(k) is None,
    ensures
        r.earliest_key() != Some(k),
{
    lemma_earliest_key_least(r);
}

/// A data entry without a season never decodes; where the other six
/// sub-fields decode, the error names the season.
pub proof fn lemma_missing_season(raw: Json)
    requires
        field_of(raw, "Season"@) is None,
    ensures
        first_bad_field(raw) is Some,
        measurement_at(raw, "AT"@) && wind_map_at(raw, "WD"@) && measurement_at(raw, "PRE"@)
            && measurement_at(raw, "HWS"@) && time_field(raw, "First_UTC"@) is Some && time_field(
            raw,
            "Last_UTC"@,
        ) is Some ==> first_bad_field(raw) == Some(SolField::Season),
{
    assert(str_field(raw, "Season"@) is None);
}

} // verus!
