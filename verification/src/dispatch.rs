//! What the bridge does with an incoming event: every rule whose filter
//! accepts it plays its gesture on its devices, in rule order.

use vstd::prelude::*;
use crate::config::{Rule, filter_accepts};
use crate::event::CloudEvent;
use crate::gestures::{Event, device_span, gesture_named, gesture_span, lemma_device_span_bounds, lookup};
use crate::rules::{required_targets, rule_is_valid};
use crate::text::{split_at_first, split_once};

verus! {

/// Whether `parts` holds the backend and the id of each device of `devices`,
/// in order.
pub open spec fn split_devices(devices: Seq<String>, parts: Seq<(String, String)>) -> bool {
    &&& parts.len() == devices.len()
    &&& forall|k: int|
        0 <= k < devices.len() ==> (split_at_first(#[trigger] devices[k]@, '/') matches Some((b, id))
            && parts[k].0@ == b && parts[k].1@ == id)
}

/// The backend and the id of each device a valid rule plays on; the
/// gesture's device `i` plays on entry `i`.
pub fn rule_targets(rule: &Rule) -> (res: Vec<(String, String)>)
    requires
        rule_is_valid(*rule),
    ensures
        required_targets(*rule) matches Some(ts) && split_devices(ts, res@),
{
    let found = lookup(rule.gesture.name.as_str());
    let g = match &found {
        Some(g) => g,
        None => {
            assert(false);
            return Vec::new();
        },
    };
    let ghost ts = required_targets(*rule)->0;
    let mut res: Vec<(String, String)> = Vec::new();
    if gesture_span(g) > 1 {
        let list = match &rule.devices {
            Some(l) => l,
            None => {
                assert(false);
                return res;
            },
        };
        assert(ts == list@);
        assert(forall|k: int| 0 <= k < ts.len() ==> crate::rules::target_ok(#[trigger] ts[k]@));
        let mut i: usize = 0;
        while i < list.len()
            invariant
                ts == list@,
                forall|k: int| 0 <= k < ts.len() ==> crate::rules::target_ok(#[trigger] ts[k]@),
                required_targets(*rule) == Some(ts),
                i <= list.len(),
                res@.len() == i,
                forall|k: int|
                    0 <= k < i ==> (split_at_first(#[trigger] ts[k]@, '/') matches Some((b, id))
                        && res@[k].0@ == b && res@[k].1@ == id),
            decreases list.len() - i,
        {
            assert(crate::rules::target_ok(ts[i as int]@));
            match split_once(list[i].as_str(), '/') {
                Some(parts) => res.push(parts),
                None => {
                    assert(false);
                    return res;
                },
            }
            i = i + 1;
        }
    } else {
        let d = match &rule.device {
            Some(d) => d,
            None => {
                assert(false);
                return res;
            },
        };
        assert(ts == seq![*d]);
        assert(crate::rules::target_ok(ts[0]@));
        match split_once(d.as_str(), '/') {
            Some(parts) => res.push(parts),
            None => {
                assert(false);
                return res;
            },
        }
    }
    res
}

/// One gesture to play: the rule that asked for it, the backend and the id of
/// each device it plays on (its device `i` on entry `i`), and the gesture's
/// events before scaling.
pub struct Dispatch {
    pub rule: usize,
    pub targets: Vec<(String, String)>,
    pub gesture: Vec<Event>,
}

/// Whether `d` is the dispatch of rule `i` of `rules`.
pub open spec fn dispatches_rule(d: Dispatch, rules: Seq<Rule>, i: int) -> bool {
    let r = rules[i];
    &&& d.rule == i
    &&& required_targets(r) matches Some(ts) && split_devices(ts, d.targets@)
    &&& gesture_named(r.gesture.name@) matches Some(g) && d.gesture@ == g
    &&& forall|j: int| 0 <= j < d.gesture@.len() ==> (#[trigger] d.gesture@[j]).device < d.targets@.len()
}

/// The indices, in order, of the first `n` rules whose filter accepts `event`.
pub open spec fn accepting_rules(rules: Seq<Rule>, event: CloudEvent, n: int) -> Seq<int>
    decreases n,
{
    if n <= 0 {
        Seq::empty()
    } else {
        accepting_rules(rules, event, n - 1) + if filter_accepts(rules[n - 1].filter, event) {
            seq![n - 1]
        } else {
            Seq::empty()
        }
    }
}

/// The accepting rules are exactly the rules whose whole filter accepts the
/// event, each once, in rule order.
pub proof fn lemma_accepting_rules_are_the_accepting_filters(rules: Seq<Rule>, event: CloudEvent, n: int)
    requires
        0 <= n <= rules.len(),
    ensures
        forall|k: int|
            0 <= k < n ==> (accepting_rules(rules, event, n).contains(k) <==> filter_accepts(
                #[trigger] rules[k].filter,
                event,
            )),
        forall|j: int|
            0 <= j < accepting_rules(rules, event, n).len() ==> 0 <= #[trigger] accepting_rules(
                rules,
                event,
                n,
            )[j] < n,
        forall|a: int, b: int|
            0 <= a < b < accepting_rules(rules, event, n).len() ==> accepting_rules(rules, event, n)[a]
                < accepting_rules(rules, event, n)[b],
    decreases n,
{
    if n > 0 {
        lemma_accepting_rules_are_the_accepting_filters(rules, event, n - 1);
        let p = accepting_rules(rules, event, n - 1);
        let q = accepting_rules(rules, event, n);
        if filter_accepts(rules[n - 1].filter, event) {
            assert(q == p.push(n - 1));
            assert(q[q.len() - 1] == n - 1);
            assert forall|k: int| 0 <= k < n implies (q.contains(k) <==> filter_accepts(
                #[trigger] rules[k].filter,
                event,
            )) by {
                if q.contains(k) && k < n - 1 {
                    let j = choose|j: int| 0 <= j < q.len() && q[j] == k;
                    assert(j < p.len());
                    assert(p[j] == k);
                }
                if k < n - 1 && p.contains(k) {
                    let j = choose|j: int| 0 <= j < p.len() && p[j] == k;
                    assert(q[j] == k);
                }
            }
            assert forall|a: int, b: int| 0 <= a < b < q.len() implies q[a] < q[b] by {
                if b == q.len() - 1 {
                    assert(q[a] == p[a]);
                } else {
                    assert(q[a] == p[a] && q[b] == p[b]);
                }
            }
        } else {
            assert(q =~= p);
            assert(!p.contains(n - 1));
        }
    }
}

/// The gestures to play for `event`: one for each rule that accepts it, in
/// rule order. The rules must have passed validation.
pub fn dispatch_plan(rules: &[Rule], event: &CloudEvent) -> (res: Vec<Dispatch>)
    requires
        forall|i: int| 0 <= i < rules@.len() ==> rule_is_valid(#[trigger] rules@[i]),
    ensures
        res@.len() == accepting_rules(rules@, *event, rules@.len() as int).len(),
        forall|k: int|
            0 <= k < res@.len() ==> dispatches_rule(
                #[trigger] res@[k],
                rules@,
                accepting_rules(rules@, *event, rules@.len() as int)[k],
            ),
{
    let mut res: Vec<Dispatch> = Vec::new();
    let mut i: usize = 0;
    while i < rules.len()
        invariant
            i <= rules@.len(),
            forall|j: int| 0 <= j < rules@.len() ==> rule_is_valid(#[trigger] rules@[j]),
            res@.len() == accepting_rules(rules@, *event, i as int).len(),
            forall|k: int|
                0 <= k < res@.len() ==> dispatches_rule(
                    #[trigger] res@[k],
                    rules@,
                    accepting_rules(rules@, *event, i as int)[k],
                ),
        decreases rules.len() - i,
    {
        let rule = &rules[i];
        let ghost prev = accepting_rules(rules@, *event, i as int);
        if rule.filter.matches(event) {
            assert(rule_is_valid(rules@[i as int]));
            let targets = rule_targets(rule);
            let gesture = match lookup(rule.gesture.name.as_str()) {
                Some(g) => g,
                None => {
                    assert(false);
                    return res;
                },
            };
            proof {
                lemma_device_span_bounds(gesture@);
            }
            let d = Dispatch { rule: i, targets, gesture };
            assert(dispatches_rule(d, rules@, i as int));
            res.push(d);
            assert(accepting_rules(rules@, *event, i + 1) == prev.push(i as int));
        } else {
            assert(accepting_rules(rules@, *event, i + 1) =~= prev);
        }
        i = i + 1;
    }
    res
}

} // verus!
