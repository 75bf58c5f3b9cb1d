//! Configuration of the bridge, and the event filters that rules carry:
//! glob patterns over event attributes and exact matches on data fields.

use vstd::prelude::*;
use crate::text::chars_of;
use crate::event::{CloudEvent, data_field, data_field_equals};

verus! {

/// The whole configuration: where the broker is, which topics to subscribe
/// to, and the rules that turn events into gestures.
pub struct Config {
    pub broker: BrokerConfig,
    pub topics: Vec<String>,
    pub rules: Vec<Rule>,
}

/// How to reach the MQTT broker.
pub struct BrokerConfig {
    pub host: String,
    pub port: u16,
    pub client_id: Option<String>,
    pub auth: Option<AuthConfig>,
}

/// The port used when the configuration gives none.
pub fn default_port() -> (res: u16)
    ensures
        res == 1883,
{
    1883
}

/// Credentials for the broker.
pub struct AuthConfig {
    pub username: String,
    pub password: String,
}

/// One rule: events that pass `filter` play `gesture`. A gesture for one
/// device plays on `device`; a gesture for several devices (`both_*`,
/// `crossfade_*`, `alternate_*`, `stop_all`) plays on `devices`, its device
/// `i` on `devices[i]`. Each device is written `BACKEND/ID`.
pub struct Rule {
    pub filter: Filter,
    pub gesture: GestureConfig,
    pub device: Option<String>,
    pub devices: Option<Vec<String>>,
}

/// The gesture a rule plays, by name, with its speed and magnitude scale
/// factors (each the bit pattern of an `f32`, see `crate::magnitude`; both
/// default to `1.0`).
pub struct GestureConfig {
    pub name: String,
    pub scale_bits: u32,
    pub speed_bits: u32,
}

/// Which events a rule reacts to. Every attribute that is given must match;
/// attributes that are not given match anything.
pub struct Filter {
    pub type_: Option<String>,
    pub source: Option<String>,
    pub sourcetype: Option<String>,
    pub subject: Option<String>,
    /// Fields of the event's data that must be present with exactly these
    /// values (each written as compact JSON text).
    pub data: Option<Vec<(String, String)>>,
}

impl Default for Filter {
    fn default() -> (res: Self)
        ensures
            res.type_ is None,
            res.source is None,
            res.sourcetype is None,
            res.subject is None,
            res.data is None,
    {
        Filter { type_: None, source: None, sourcetype: None, subject: None, data: None }
    }
}

/// Whether an optional glob pattern admits `value`: an absent pattern admits
/// every value.
pub open spec fn pattern_admits(pattern: Option<String>, value: Seq<char>) -> bool {
    match pattern {
        Some(p) => glob_matches(p@, value),
        None => true,
    }
}

/// Whether every required data field is present in `members` with the
/// required value.
pub open spec fn data_admits(required: Option<Vec<(String, String)>>, members: Seq<(String, String)>) -> bool {
    match required {
        Some(req) => forall|i: int|
            0 <= i < req@.len() ==> data_field(members, (#[trigger] req@[i]).0@) == Some(req@[i].1@),
        None => true,
    }
}

/// What it means for filter `f` to accept event `e`.
pub open spec fn filter_accepts(f: Filter, e: CloudEvent) -> bool {
    &&& pattern_admits(f.type_, e.type_@)
    &&& pattern_admits(f.source, e.source@)
    &&& pattern_admits(f.sourcetype, e.sourcetype@)
    &&& match f.subject {
        Some(p) => match e.subject {
            Some(s) => glob_matches(p@, s@),
            None => false,
        },
        None => true,
    }
    &&& data_admits(f.data, e.data@)
}

/// A filter accepts an event only if every pattern it gives matches the
/// event's attribute (a subject pattern needs a subject), and the event has
/// every required data field, each of them, with exactly the required value.
pub proof fn lemma_filter_accepts_only_if_all_given_match(f: Filter, e: CloudEvent)
    requires
        filter_accepts(f, e),
    ensures
        f.type_ matches Some(p) ==> glob_matches(p@, e.type_@),
        f.source matches Some(p) ==> glob_matches(p@, e.source@),
        f.sourcetype matches Some(p) ==> glob_matches(p@, e.sourcetype@),
        f.subject matches Some(p) ==> (e.subject matches Some(s) && glob_matches(p@, s@)),
        f.data matches Some(req) ==> forall|i: int|
            0 <= i < req@.len() ==> data_field(e.data@, (#[trigger] req@[i]).0@) == Some(
                req@[i].1@,
            ),
{
}

/// A filter accepts an event when every pattern it gives matches the event's
/// attribute (a subject pattern needs a subject) and the event has every
/// required data field with its value: nothing else is asked of the event.
pub proof fn lemma_filter_accepts_when_all_given_match(f: Filter, e: CloudEvent)
    requires
        f.type_ matches Some(p) ==> glob_matches(p@, e.type_@),
        f.source matches Some(p) ==> glob_matches(p@, e.source@),
        f.sourcetype matches Some(p) ==> glob_matches(p@, e.sourcetype@),
        f.subject matches Some(p) ==> (e.subject matches Some(s) && glob_matches(p@, s@)),
        f.data matches Some(req) ==> forall|i: int|
            0 <= i < req@.len() ==> data_field(e.data@, (#[trigger] req@[i]).0@) == Some(
                req@[i].1@,
            ),
    ensures
        filter_accepts(f, e),
{
}

/// The data requirements are all checked: with the other attributes
/// accepted, an event passes exactly when every required field is present
/// with its value.
pub proof fn lemma_filter_data_requirements(f: Filter, e: CloudEvent, req: Vec<(String, String)>)
    requires
        f.data == Some(req),
        filter_accepts(Filter { data: None, ..f }, e),
    ensures
        filter_accepts(f, e) <==> forall|i: int|
            0 <= i < req@.len() ==> data_field(e.data@, (#[trigger] req@[i]).0@) == Some(
                req@[i].1@,
            ),
{
}

/// Requiring one more data field never lets a filter accept more events.
pub proof fn lemma_more_data_requirements_accept_less(
    f: Filter,
    g: Filter,
    e: CloudEvent,
    req: Vec<(String, String)>,
    more: Vec<(String, String)>,
)
    requires
        f.data == Some(req),
        g == (Filter { data: Some(more), ..f }),
        more@.len() == req@.len() + 1,
        forall|i: int| 0 <= i < req@.len() ==> more@[i] == req@[i],
        filter_accepts(g, e),
    ensures
        filter_accepts(f, e),
{
    assert forall|i: int| 0 <= i < req@.len() implies data_field(e.data@, (#[trigger] req@[i]).0@)
        == Some(req@[i].1@) by {
        assert(more@[i] == req@[i]);
    }
}

/// A filter with no attributes accepts every event.
pub proof fn lemma_empty_filter_accepts_all(f: Filter, e: CloudEvent)
    requires
        f.type_ is None,
        f.source is None,
        f.sourcetype is None,
        f.subject is None,
        f.data is None,
    ensures
        filter_accepts(f, e),
{
}

impl Filter {
    /// Whether this filter accepts the event.
    pub fn matches(&self, event: &CloudEvent) -> (res: bool)
        ensures
            res == filter_accepts(*self, *event),
    {
        if let Some(pat) = &self.type_ {
            if !glob_match(pat.as_str(), event.type_.as_str()) {
                return false;
            }
        }
        if let Some(pat) = &self.source {
            if !glob_match(pat.as_str(), event.source.as_str()) {
                return false;
            }
        }
        if let Some(pat) = &self.sourcetype {
            if !glob_match(pat.as_str(), event.sourcetype.as_str()) {
                return false;
            }
        }
        if let Some(pat) = &self.subject {
            match &event.subject {
                None => {
                    return false;
                },
                Some(s) => {
                    if !glob_match(pat.as_str(), s.as_str()) {
                        return false;
                    }
                },
            }
        }
        if let Some(required) = &self.data {
            let mut i: usize = 0;
            while i < required.len()
                invariant
                    i <= required.len(),
                    self.data == Some(*required),
                    forall|j: int|
                        0 <= j < i ==> data_field(event.data@, (#[trigger] required@[j]).0@)
                            == Some(required@[j].1@),
                decreases required.len() - i,
            {
                if !data_field_equals(&event.data, &required[i].0, &required[i].1) {
                    return false;
                }
                i = i + 1;
            }
        }
        true
    }
}

/// What a glob pattern means: `*` stands for any run of characters
/// (slashes included); every other character stands for itself.
pub open spec fn glob_matches(p: Seq<char>, v: Seq<char>) -> bool
    decreases p.len(), v.len(),
{
    if p.len() == 0 {
        v.len() == 0
    } else if p[0] == '*' {
        glob_matches(p.drop_first(), v) || (v.len() > 0 && glob_matches(p, v.drop_first()))
    } else {
        v.len() > 0 && v[0] == p[0] && glob_matches(p.drop_first(), v.drop_first())
    }
}

/// A pattern without `*` matches exactly the string equal to it.
pub proof fn lemma_glob_without_star(p: Seq<char>, v: Seq<char>)
    requires
        !p.contains('*'),
    ensures
        glob_matches(p, v) == (p == v),
    decreases p.len(),
{
    if p.len() == 0 {
        if v.len() == 0 {
            assert(p =~= v);
        }
    } else {
        assert(p[0] != '*') by {
            assert(p.contains(p[0]));
        }
        assert(!p.drop_first().contains('*')) by {
            if p.drop_first().contains('*') {
                let j = choose|j: int| 0 <= j < p.drop_first().len() && p.drop_first()[j] == '*';
                assert(p[j + 1] == '*');
            }
        }
        if v.len() > 0 {
            lemma_glob_without_star(p.drop_first(), v.drop_first());
            if p == v {
                assert(p.drop_first() =~= v.drop_first());
            }
            if v[0] == p[0] && p.drop_first() == v.drop_first() {
                assert(p =~= v) by {
                    assert forall|j: int| 0 <= j < p.len() implies p[j] == v[j] by {
                        if j > 0 {
                            assert(p[j] == p.drop_first()[j - 1]);
                        }
                    }
                }
            }
        }
    }
}

/// A star-free prefix of a pattern must be matched literally, and the rest of
/// the pattern then matches what follows it.
pub proof fn lemma_glob_literal_prefix(a: Seq<char>, q: Seq<char>, v: Seq<char>)
    requires
        !a.contains('*'),
    ensures
        glob_matches(a + q, v) == (a.len() <= v.len() && v.take(a.len() as int) == a
            && glob_matches(q, v.skip(a.len() as int))),
    decreases a.len(),
{
    if a.len() == 0 {
        assert(a + q =~= q);
        assert(v.skip(0) =~= v);
        assert(v.take(0) =~= a);
    } else {
        let n = a.len() as int;
        assert(a[0] != '*') by {
            assert(a.contains(a[0]));
        }
        let a1 = a.drop_first();
        assert(!a1.contains('*')) by {
            if a1.contains('*') {
                let j = choose|j: int| 0 <= j < a1.len() && a1[j] == '*';
                assert(a[j + 1] == '*');
            }
        }
        assert((a + q)[0] == a[0]);
        assert((a + q).drop_first() =~= a1 + q);
        if v.len() > 0 {
            let v1 = v.drop_first();
            lemma_glob_literal_prefix(a1, q, v1);
            if n <= v.len() {
                assert(v1.skip(n - 1) =~= v.skip(n));
                if v.take(n) == a {
                    assert(v[0] == v.take(n)[0]);
                    assert(v1.take(n - 1) =~= a1) by {
                        assert forall|j: int| 0 <= j < n - 1 implies v1.take(n - 1)[j] == a1[j] by {
                            assert(v.take(n)[j + 1] == a[j + 1]);
                        }
                    }
                }
                if v[0] == a[0] && v1.take(n - 1) == a1 {
                    assert(v.take(n) =~= a) by {
                        assert forall|j: int| 0 <= j < n implies v.take(n)[j] == a[j] by {
                            if j > 0 {
                                assert(v1.take(n - 1)[j - 1] == a1[j - 1]);
                            }
                        }
                    }
                }
            }
        }
    }
}

/// A leading `*` lets the rest of the pattern match any suffix.
pub proof fn lemma_glob_leading_star(r: Seq<char>, w: Seq<char>)
    ensures
        glob_matches(seq!['*'] + r, w) == (exists|k: int|
            0 <= k <= w.len() && #[trigger] glob_matches(r, w.skip(k))),
    decreases w.len(),
{
    let s = seq!['*'] + r;
    assert(s[0] == '*');
    assert(s.drop_first() =~= r);
    assert(w.skip(0) =~= w);
    assert(glob_matches(s, w) == (glob_matches(r, w) || (w.len() > 0 && glob_matches(
        s,
        w.drop_first(),
    ))));
    if w.len() > 0 {
        let w1 = w.drop_first();
        lemma_glob_leading_star(r, w1);
        if glob_matches(s, w1) {
            let k = choose|k: int| 0 <= k <= w1.len() && #[trigger] glob_matches(r, w1.skip(k));
            assert(w1.skip(k) =~= w.skip(k + 1));
        }
        if exists|k: int| 0 <= k <= w.len() && #[trigger] glob_matches(r, w.skip(k)) {
            let k = choose|k: int| 0 <= k <= w.len() && #[trigger] glob_matches(r, w.skip(k));
            if k > 0 {
                assert(w1.skip(k - 1) =~= w.skip(k));
            }
        }
    } else {
        if exists|k: int| 0 <= k <= w.len() && #[trigger] glob_matches(r, w.skip(k)) {
            let k = choose|k: int| 0 <= k <= w.len() && #[trigger] glob_matches(r, w.skip(k));
            assert(k == 0);
        }
    }
}

/// The empty pattern matches the empty string and nothing else.
pub proof fn lemma_glob_empty_pattern(v: Seq<char>)
    ensures
        glob_matches(Seq::empty(), v) == (v.len() == 0),
{
}

/// The pattern `*` matches every string.
pub proof fn lemma_glob_star_matches_anything(v: Seq<char>)
    ensures
        glob_matches(seq!['*'], v),
{
    let e = Seq::<char>::empty();
    assert(seq!['*'] =~= seq!['*'] + e);
    lemma_glob_leading_star(e, v);
    assert(v.skip(v.len() as int) =~= e);
    assert(glob_matches(e, v.skip(v.len() as int)));
}

/// Between a star-free head and a star-free tail, a `*` matches any run of
/// characters `x`, slashes included.
pub proof fn lemma_glob_star_matches_any_infix(a: Seq<char>, b: Seq<char>, x: Seq<char>)
    requires
        !a.contains('*'),
        !b.contains('*'),
    ensures
        glob_matches(a + seq!['*'] + b, a + x + b),
{
    let v = a + x + b;
    let r = seq!['*'] + b;
    assert(a + seq!['*'] + b =~= a + r);
    lemma_glob_literal_prefix(a, r, v);
    assert(v.take(a.len() as int) =~= a);
    let w = v.skip(a.len() as int);
    assert(w =~= x + b);
    lemma_glob_leading_star(b, w);
    assert(w.skip(x.len() as int) =~= b);
    lemma_glob_without_star(b, b);
    assert(glob_matches(b, w.skip(x.len() as int)));
}

/// Matches `p@.skip(pi)` against `v@.skip(vi)` the way the pattern is read:
/// the literal text before the first `*` must start the value, then the rest
/// of the pattern is tried against every later position.
fn glob_match_from(p: &Vec<char>, pi: usize, v: &Vec<char>, vi: usize) -> (res: bool)
    requires
        pi <= p.len(),
        vi <= v.len(),
    ensures
        res == glob_matches(p@.skip(pi as int), v@.skip(vi as int)),
    decreases p.len() - pi,
{
    let ghost ps = p@.skip(pi as int);
    let ghost vs = v@.skip(vi as int);
    let mut s: usize = pi;
    while s < p.len() && p[s] != '*'
        invariant
            pi <= s <= p.len(),
            forall|j: int| pi <= j < s ==> p@[j] != '*',
        decreases p.len() - s,
    {
        s = s + 1;
    }
    let n: usize = s - pi;
    let ghost a = ps.take(n as int);
    assert(!a.contains('*')) by {
        if a.contains('*') {
            let j = choose|j: int| 0 <= j < a.len() && a[j] == '*';
            assert(p@[pi + j] == '*');
        }
    }
    if s == p.len() {
        // no star: the rest of the pattern must equal the rest of the value
        assert(ps =~= a);
        proof {
            lemma_glob_without_star(ps, vs);
        }
        if v.len() - vi != n {
            return false;
        }
        let mut i: usize = 0;
        while i < n
            invariant
                n == p.len() - pi,
                n == v.len() - vi,
                i <= n,
                glob_matches(ps, vs) == (ps == vs),
                ps == p@.skip(pi as int),
                vs == v@.skip(vi as int),
                forall|j: int| 0 <= j < i ==> ps[j] == vs[j],
            decreases n - i,
        {
            if p[pi + i] != v[vi + i] {
                assert(ps[i as int] != vs[i as int]);
                return false;
            }
            i = i + 1;
        }
        assert(ps =~= vs);
        return true;
    }
    // a star at `s`: the literal prefix must start the value
    let ghost q = p@.skip(s as int);
    let ghost r = p@.skip(s + 1);
    assert(ps =~= a + q);
    assert(q =~= seq!['*'] + r);
    proof {
        lemma_glob_literal_prefix(a, q, vs);
    }
    if v.len() - vi < n {
        return false;
    }
    let mut i: usize = 0;
    while i < n
        invariant
            n == s - pi,
            s < p.len(),
            n <= v.len() - vi,
            i <= n,
            glob_matches(ps, vs) == (vs.take(n as int) == a && glob_matches(q, vs.skip(n as int))),
            ps == p@.skip(pi as int),
            vs == v@.skip(vi as int),
            a == ps.take(n as int),
            forall|j: int| 0 <= j < i ==> ps[j] == vs[j],
        decreases n - i,
    {
        if p[pi + i] != v[vi + i] {
            assert(vs.take(n as int)[i as int] != a[i as int]);
            return false;
        }
        i = i + 1;
    }
    assert(vs.take(n as int) =~= a);
    let after: usize = vi + n;
    let ghost w = v@.skip(after as int);
    assert(vs.skip(n as int) =~= w);
    proof {
        lemma_glob_leading_star(r, w);
    }
    let mut pos: usize = after;
    loop
        invariant
            after <= pos <= v.len(),
            ps == p@.skip(pi as int),
            vs == v@.skip(vi as int),
            pi <= s,
            s + 1 <= p.len(),
            glob_matches(ps, vs) == glob_matches(q, w),
            glob_matches(q, w) == (exists|k: int|
                0 <= k <= w.len() && #[trigger] glob_matches(r, w.skip(k))),
            r == p@.skip(s + 1),
            w == v@.skip(after as int),
            forall|k: int| 0 <= k < pos - after ==> !#[trigger] glob_matches(r, w.skip(k)),
        decreases v.len() - pos,
    {
        let ok = glob_match_from(p, s + 1, v, pos);
        assert(w.skip(pos - after) =~= v@.skip(pos as int));
        if ok {
            return true;
        }
        if pos == v.len() {
            assert(forall|k: int| 0 <= k <= w.len() ==> !#[trigger] glob_matches(r, w.skip(k)));
            return false;
        }
        pos = pos + 1;
    }
}

/// Whether `value` matches the glob `pattern`, in which `*` matches any
/// sequence of characters (including `/`).
pub fn glob_match(pattern: &str, value: &str) -> (res: bool)
    ensures
        res == glob_matches(pattern@, value@),
{
    let p = chars_of(pattern);
    let v = chars_of(value);
    proof {
        assert(p@.skip(0) =~= p@);
        assert(v@.skip(0) =~= v@);
    }
    glob_match_from(&p, 0, &v, 0)
}

} // verus!
