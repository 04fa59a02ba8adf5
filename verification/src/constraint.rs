//! Choosing between the signatures that share one content hash, by call-site evidence.

use crate::guid::FunctionGUID;
use crate::matcher::{Matcher, SubjectFunction};
use crate::signature::{
    call_sites_model, functions_model, same_symbol, CallSiteConstraint, CallSiteModel, Function,
    FunctionModel, SymbolModel,
};
use std::collections::HashSet;
use vstd::hash_set::StringHashSet;
use vstd::prelude::*;

verus! {

/// The callee hashes that a run of call sites names.
pub open spec fn callee_guids(call_sites: Seq<CallSiteModel>) -> Set<u128> {
    Set::new(
        |g: u128|
            exists|i: int|
                0 <= i < call_sites.len() && (#[trigger] call_sites[i]).guid == Some(
                    FunctionGUID { guid: g },
                ),
    )
}

/// The callee names that a run of call sites names.
pub open spec fn callee_names(call_sites: Seq<CallSiteModel>) -> Set<Seq<char>> {
    Set::new(
        |n: Seq<char>|
            exists|i: int|
                0 <= i < call_sites.len() && (#[trigger] call_sites[i]).symbol == Some(
                    SymbolModel { name: n },
                ),
    )
}

/// How many callee hashes the subject's call sites share with the candidate's.
pub open spec fn guid_score(subject: Seq<CallSiteModel>, candidate: FunctionModel) -> nat {
    callee_guids(subject).intersect(callee_guids(candidate.call_sites)).len()
}

/// How many callee names the subject's call sites share with the candidate's.
pub open spec fn name_score(subject: Seq<CallSiteModel>, candidate: FunctionModel) -> nat {
    callee_names(subject).intersect(callee_names(candidate.call_sites)).len()
}

/// The overlap in callee hashes of every candidate with the subject.
pub open spec fn guid_scores(subject: Seq<CallSiteModel>, candidates: Seq<FunctionModel>) -> Seq<
    nat,
> {
    Seq::new(candidates.len(), |i: int| guid_score(subject, candidates[i]))
}

/// The overlap in callee names of every candidate with the subject.
pub open spec fn name_scores(subject: Seq<CallSiteModel>, candidates: Seq<FunctionModel>) -> Seq<
    nat,
> {
    Seq::new(candidates.len(), |i: int| name_score(subject, candidates[i]))
}

/// The greatest of the scores; zero where there is none.
pub open spec fn best_score(scores: Seq<nat>) -> nat
    decreases scores.len(),
{
    if scores.len() == 0 {
        0
    } else if scores.last() > best_score(scores.drop_last()) {
        scores.last()
    } else {
        best_score(scores.drop_last())
    }
}

/// Candidate `i` leads: its score is positive and every other candidate's is strictly lower.
pub open spec fn leads(scores: Seq<nat>, i: int) -> bool {
    &&& 0 <= i < scores.len()
    &&& scores[i] > 0
    &&& forall|j: int| 0 <= j < scores.len() && j != i ==> #[trigger] scores[j] < scores[i]
}

/// The candidate that leads, if one does. A tie for the best score leaves none.
pub open spec fn leader(scores: Seq<nat>) -> Option<int> {
    if exists|i: int| leads(scores, i) {
        Some(choose|i: int| leads(scores, i))
    } else {
        None
    }
}

/// The candidate that the call-site evidence singles out, by its index, if there is one.
///
/// With no call site on the subject nothing tells the candidates apart. Otherwise the
/// evidence with the higher best score decides, and names its leader. Where both kinds
/// of evidence are equally strong, their leaders must both exist and agree on the
/// function's type and symbol.
pub open spec fn disambiguate(subject: Seq<CallSiteModel>, candidates: Seq<FunctionModel>) -> Option<
    int,
> {
    let by_guid = guid_scores(subject, candidates);
    let by_name = name_scores(subject, candidates);
    if subject.len() == 0 {
        None
    } else if best_score(by_name) > best_score(by_guid) {
        leader(by_name)
    } else if best_score(by_guid) > best_score(by_name) {
        leader(by_guid)
    } else {
        match (leader(by_guid), leader(by_name)) {
            (Some(g), Some(n)) => if candidates[g].ty == candidates[n].ty && candidates[g].symbol
                == candidates[n].symbol {
                Some(g)
            } else {
                None
            },
            _ => None,
        }
    }
}

/// No score exceeds the best one, and a positive best score is some candidate's.
pub proof fn lemma_best_score(scores: Seq<nat>)
    ensures
        forall|i: int| 0 <= i < scores.len() ==> #[trigger] scores[i] <= best_score(scores),
        best_score(scores) > 0 ==> exists|i: int|
            0 <= i < scores.len() && #[trigger] scores[i] == best_score(scores),
    decreases scores.len(),
{
    if scores.len() > 0 {
        let rest = scores.drop_last();
        lemma_best_score(rest);
        assert forall|i: int| 0 <= i < scores.len() implies #[trigger] scores[i] <= best_score(
            scores,
        ) by {
            if i < rest.len() {
                assert(rest[i] == scores[i]);
            }
        }
        if best_score(scores) > 0 {
            if scores.last() > best_score(rest) {
                assert(scores[scores.len() - 1] == best_score(scores));
            } else {
                let i = choose|i: int| 0 <= i < rest.len() && #[trigger] rest[i] == best_score(rest);
                assert(scores[i] == best_score(scores));
            }
        }
    }
}

/// At most one candidate leads.
pub proof fn lemma_leader_unique(scores: Seq<nat>, a: int, b: int)
    requires
        leads(scores, a),
        leads(scores, b),
    ensures
        a == b,
{
    if a != b {
        assert(scores[a] < scores[b]);
        assert(scores[b] < scores[a]);
    }
}

/// The leader's score is the best score.
pub proof fn lemma_leader_has_best_score(scores: Seq<nat>)
    ensures
        leader(scores) matches Some(i) ==> leads(scores, i) && scores[i] == best_score(scores),
{
    lemma_best_score(scores);
    if let Some(i) = leader(scores) {
        assert(leads(scores, i));
        let k = choose|k: int| 0 <= k < scores.len() && #[trigger] scores[k] == best_score(scores);
        assert(scores[k] == best_score(scores));
    }
}

/// How one more candidate changes the best score and the leader: a strictly greater
/// score takes the lead, an equal one clears it, a lesser one changes nothing.
pub proof fn lemma_leader_push(scores: Seq<nat>, score: nat)
    ensures
        best_score(scores.push(score)) == if score > best_score(scores) {
            score
        } else {
            best_score(scores)
        },
        score > best_score(scores) ==> leader(scores.push(score)) == Some(scores.len() as int),
        score == best_score(scores) ==> leader(scores.push(score)) is None,
        score < best_score(scores) ==> leader(scores.push(score)) == leader(scores),
{
    let more = scores.push(score);
    let last = scores.len() as int;
    assert(more.drop_last() =~= scores);
    assert(more.last() == score);
    lemma_best_score(scores);
    lemma_leader_has_best_score(scores);
    assert(forall|j: int| 0 <= j < scores.len() ==> more[j] == scores[j]);
    if score > best_score(scores) {
        assert forall|j: int| 0 <= j < more.len() && j != last implies #[trigger] more[j]
            < more[last] by {
            assert(scores[j] <= best_score(scores));
        }
        assert(leads(more, last));
        let c = choose|i: int| leads(more, i);
        lemma_leader_unique(more, c, last);
    } else if score == best_score(scores) {
        if exists|i: int| leads(more, i) {
            let c = choose|i: int| leads(more, i);
            if c == last {
                let k = choose|k: int|
                    0 <= k < scores.len() && #[trigger] scores[k] == best_score(scores);
                assert(more[k] < more[c]);
            } else {
                assert(scores[c] <= best_score(scores));
                assert(more[last] < more[c]);
            }
        }
    } else {
        let k = choose|k: int| 0 <= k < scores.len() && #[trigger] scores[k] == best_score(scores);
        assert(more[k] == best_score(scores));
        if let Some(i) = leader(scores) {
            assert forall|j: int| 0 <= j < more.len() && j != i implies #[trigger] more[j]
                < more[i] by {
                if j < last {
                    assert(scores[j] < scores[i]);
                }
            }
            assert(leads(more, i));
            let c = choose|c: int| leads(more, c);
            lemma_leader_unique(more, c, i);
        } else {
            if exists|c: int| leads(more, c) {
                let c = choose|c: int| leads(more, c);
                if c == last {
                    assert(more[k] < more[c]);
                } else {
                    assert forall|j: int| 0 <= j < scores.len() && j != c implies #[trigger] scores[j]
                        < scores[c] by {
                        assert(more[j] < more[c]);
                    }
                    assert(leads(scores, c));
                }
            }
        }
    }
}

/// The candidate that is chosen is one of the candidates.
pub proof fn lemma_disambiguate_in_range(subject: Seq<CallSiteModel>, candidates: Seq<FunctionModel>)
    ensures
        disambiguate(subject, candidates) matches Some(i) ==> 0 <= i < candidates.len(),
{
    lemma_leader_has_best_score(guid_scores(subject, candidates));
    lemma_leader_has_best_score(name_scores(subject, candidates));
}

/// Dominance: a candidate whose overlap in callee hashes is positive, higher than every
/// other candidate's, and higher than any overlap in callee names, is the one chosen.
pub proof fn lemma_higher_overlap_wins(
    subject: Seq<CallSiteModel>,
    candidates: Seq<FunctionModel>,
    i: int,
)
    requires
        subject.len() > 0,
        leads(guid_scores(subject, candidates), i),
        best_score(name_scores(subject, candidates)) < guid_scores(subject, candidates)[i],
    ensures
        disambiguate(subject, candidates) == Some(i),
{
    let by_guid = guid_scores(subject, candidates);
    lemma_leader_has_best_score(by_guid);
    lemma_best_score(by_guid);
    if let Some(k) = leader(by_guid) {
        lemma_leader_unique(by_guid, k, i);
    }
}

/// Tie elimination: where two candidates share the best overlap in callee hashes, and no
/// overlap in callee names reaches it, no candidate is chosen.
pub proof fn lemma_tie_eliminates(
    subject: Seq<CallSiteModel>,
    candidates: Seq<FunctionModel>,
    a: int,
    b: int,
)
    requires
        0 <= a < candidates.len(),
        0 <= b < candidates.len(),
        a != b,
        guid_scores(subject, candidates)[a] == best_score(guid_scores(subject, candidates)),
        guid_scores(subject, candidates)[b] == best_score(guid_scores(subject, candidates)),
        best_score(name_scores(subject, candidates)) < best_score(
            guid_scores(subject, candidates),
        ),
    ensures
        disambiguate(subject, candidates) is None,
{
    let by_guid = guid_scores(subject, candidates);
    lemma_leader_has_best_score(by_guid);
    if let Some(k) = leader(by_guid) {
        if k == a {
            assert(by_guid[b] < by_guid[k]);
        } else {
            assert(by_guid[a] < by_guid[k]);
        }
    }
}

/// The record that the call-site evidence singles out, if there is one.
pub open spec fn chosen(subject: Seq<CallSiteModel>, candidates: Seq<FunctionModel>) -> Option<
    FunctionModel,
> {
    match disambiguate(subject, candidates) {
        Some(i) => Some(candidates[i]),
        None => None,
    }
}

/// Place `j` of the first run is taken by one of the first `len` places of the second.
pub open spec fn taken(places: spec_fn(int) -> int, len: nat, j: int) -> bool {
    exists|i: int| 0 <= i < len && #[trigger] places(i) == j
}

/// `after` holds what `before` holds, in another order: place `i` of `after` holds what
/// stands at `places(i)` in `before`, no place of `before` is taken twice, and each is
/// taken.
pub open spec fn rearranged<A>(before: Seq<A>, after: Seq<A>, places: spec_fn(int) -> int) -> bool {
    &&& before.len() == after.len()
    &&& forall|i: int|
        0 <= i < after.len() ==> 0 <= #[trigger] places(i) < before.len() && after[i]
            == before[places(i)]
    &&& forall|i: int, j: int|
        0 <= i < after.len() && 0 <= j < after.len() && i != j ==> #[trigger] places(i)
            != #[trigger] places(j)
    &&& forall|j: int| 0 <= j < before.len() ==> #[trigger] taken(places, after.len(), j)
}

/// Scores in another order have the same best score, and the same candidate leads.
proof fn lemma_scores_rearranged(before: Seq<nat>, after: Seq<nat>, places: spec_fn(int) -> int)
    requires
        rearranged(before, after, places),
    ensures
        best_score(after) == best_score(before),
        leader(after) matches Some(i) ==> leader(before) == Some(places(i)),
        leader(after) is None ==> leader(before) is None,
{
    lemma_best_score(before);
    lemma_best_score(after);
    lemma_leader_has_best_score(before);
    lemma_leader_has_best_score(after);
    if best_score(after) > 0 {
        let i = choose|i: int| 0 <= i < after.len() && #[trigger] after[i] == best_score(after);
        assert(before[places(i)] == after[i]);
    }
    if best_score(before) > 0 {
        let j = choose|j: int| 0 <= j < before.len() && #[trigger] before[j] == best_score(before);
        assert(taken(places, after.len(), j));
        let i = choose|i: int| 0 <= i < after.len() && #[trigger] places(i) == j;
        assert(after[i] == before[j]);
    }
    if let Some(i) = leader(after) {
        let at = places(i);
        assert forall|j: int| 0 <= j < before.len() && j != at implies #[trigger] before[j]
            < before[at] by {
            assert(taken(places, after.len(), j));
            let k = choose|k: int| 0 <= k < after.len() && #[trigger] places(k) == j;
            assert(after[k] < after[i]);
        }
        assert(leads(before, at));
        let c = choose|c: int| leads(before, c);
        lemma_leader_unique(before, c, at);
    } else if let Some(j) = leader(before) {
        assert(taken(places, after.len(), j));
        let i = choose|i: int| 0 <= i < after.len() && #[trigger] places(i) == j;
        assert forall|k: int| 0 <= k < after.len() && k != i implies #[trigger] after[k]
            < after[i] by {
            assert(places(k) != places(i));
            assert(before[places(k)] < before[j]);
        }
        assert(leads(after, i));
    }
}

/// The choice does not depend on the order of the candidates: the same candidates in
/// another order give the same record, or none either way.
pub proof fn lemma_choice_ignores_order(
    subject: Seq<CallSiteModel>,
    before: Seq<FunctionModel>,
    after: Seq<FunctionModel>,
    places: spec_fn(int) -> int,
)
    requires
        rearranged(before, after, places),
    ensures
        chosen(subject, after) == chosen(subject, before),
{
    assert(rearranged(guid_scores(subject, before), guid_scores(subject, after), places));
    assert(rearranged(name_scores(subject, before), name_scores(subject, after), places));
    lemma_scores_rearranged(guid_scores(subject, before), guid_scores(subject, after), places);
    lemma_scores_rearranged(name_scores(subject, before), name_scores(subject, after), places);
    lemma_leader_has_best_score(guid_scores(subject, after));
    lemma_leader_has_best_score(name_scores(subject, after));
    lemma_leader_has_best_score(guid_scores(subject, before));
    lemma_leader_has_best_score(name_scores(subject, before));
}

/// The scores as natural numbers.
pub open spec fn as_nats(scores: Seq<usize>) -> Seq<nat> {
    scores.map_values(|n: usize| n as nat)
}

/// The texts of a run of names.
pub open spec fn texts(names: Seq<&String>) -> Seq<Seq<char>> {
    names.map_values(|s: &String| s@)
}

proof fn lemma_callee_guids_push(call_sites: Seq<CallSiteModel>, next: CallSiteModel)
    ensures
        callee_guids(call_sites.push(next)) == match next.guid {
            Some(g) => callee_guids(call_sites).insert(g.guid),
            None => callee_guids(call_sites),
        },
{
    let more = call_sites.push(next);
    let expected = match next.guid {
        Some(g) => callee_guids(call_sites).insert(g.guid),
        None => callee_guids(call_sites),
    };
    assert forall|g: u128| callee_guids(more).contains(g) == expected.contains(g) by {
        let wanted = Some(FunctionGUID { guid: g });
        if callee_guids(more).contains(g) {
            let i = choose|i: int| 0 <= i < more.len() && (#[trigger] more[i]).guid == wanted;
            if i < call_sites.len() {
                assert(call_sites[i].guid == wanted);
            }
        }
        if expected.contains(g) {
            if callee_guids(call_sites).contains(g) {
                let i = choose|i: int|
                    0 <= i < call_sites.len() && (#[trigger] call_sites[i]).guid == wanted;
                assert(more[i].guid == wanted);
            } else {
                assert(more[call_sites.len() as int].guid == wanted);
            }
        }
    }
    assert(callee_guids(more) =~= expected);
}

proof fn lemma_callee_names_push(call_sites: Seq<CallSiteModel>, next: CallSiteModel)
    ensures
        callee_names(call_sites.push(next)) == match next.symbol {
            Some(s) => callee_names(call_sites).insert(s.name),
            None => callee_names(call_sites),
        },
{
    let more = call_sites.push(next);
    let expected = match next.symbol {
        Some(s) => callee_names(call_sites).insert(s.name),
        None => callee_names(call_sites),
    };
    assert forall|n: Seq<char>| callee_names(more).contains(n) == expected.contains(n) by {
        let wanted = Some(SymbolModel { name: n });
        if callee_names(more).contains(n) {
            let i = choose|i: int| 0 <= i < more.len() && (#[trigger] more[i]).symbol == wanted;
            if i < call_sites.len() {
                assert(call_sites[i].symbol == wanted);
            }
        }
        if expected.contains(n) {
            if callee_names(call_sites).contains(n) {
                let i = choose|i: int|
                    0 <= i < call_sites.len() && (#[trigger] call_sites[i]).symbol == wanted;
                assert(more[i].symbol == wanted);
            } else {
                assert(more[call_sites.len() as int].symbol == wanted);
            }
        }
    }
    assert(callee_names(more) =~= expected);
}

/// Counting the keys of a duplicate-free run that a set holds, one key at a time.
proof fn lemma_overlap_step<K>(keys: Seq<K>, k: int, other: Set<K>)
    requires
        keys.no_duplicates(),
        0 <= k < keys.len(),
    ensures
        keys.take(k + 1).to_set().intersect(other).len() == keys.take(k).to_set().intersect(
            other,
        ).len() + (if other.contains(keys[k]) {
            1nat
        } else {
            0nat
        }),
        keys.take(k).to_set().intersect(other).len() <= k,
{
    broadcast use vstd::seq_lib::group_seq_properties;

    let before = keys.take(k).to_set();
    let after = keys.take(k + 1).to_set();
    vstd::seq_lib::seq_to_set_is_finite(keys.take(k));
    assert(keys.take(k + 1) =~= keys.take(k).push(keys[k]));
    assert(after =~= before.insert(keys[k]));
    if before.contains(keys[k]) {
        let j = choose|j: int| 0 <= j < k && keys.take(k)[j] == keys[k];
        assert(keys[j] == keys[k]);
    }
    if other.contains(keys[k]) {
        assert(after.intersect(other) =~= before.intersect(other).insert(keys[k]));
    } else {
        assert(after.intersect(other) =~= before.intersect(other));
    }
    keys.take(k).unique_seq_to_set();
    vstd::set_lib::lemma_len_intersect(before, other);
}

/// The callee hashes of the call sites, each once, in the order of their first occurrence.
fn distinct_guids(call_sites: &[CallSiteConstraint]) -> (keys: Vec<u128>)
    ensures
        keys@.no_duplicates(),
        keys@.to_set() == callee_guids(call_sites_model(call_sites@)),
{
    broadcast use vstd::std_specs::hash::group_hash_axioms;
    broadcast use vstd::seq_lib::group_seq_properties;

    let ghost model = call_sites_model(call_sites@);
    let mut seen: HashSet<u128> = HashSet::new();
    let mut keys: Vec<u128> = Vec::new();
    let mut i: usize = 0;
    assert(keys@.to_set() =~= seen@);
    assert(seen@ =~= callee_guids(model.take(0)));
    while i < call_sites.len()
        invariant
            i <= call_sites.len(),
            model == call_sites_model(call_sites@),
            keys@.no_duplicates(),
            keys@.to_set() == seen@,
            seen@ == callee_guids(model.take(i as int)),
        decreases call_sites.len() - i,
    {
        proof {
            assert(model.take(i + 1) =~= model.take(i as int).push(model[i as int]));
            lemma_callee_guids_push(model.take(i as int), model[i as int]);
        }
        if let Some(g) = call_sites[i].guid {
            if seen.insert(g.guid) {
                proof {
                    keys@.lemma_push_to_set_commute(g.guid);
                }
                keys.push(g.guid);
            } else {
                assert(seen@.insert(g.guid) =~= seen@);
            }
        }
        i += 1;
    }
    assert(model.take(call_sites.len() as int) =~= model);
    keys
}

/// The callee names of the call sites, each once, in the order of their first occurrence.
fn distinct_names<'a>(call_sites: &'a [CallSiteConstraint]) -> (keys: Vec<&'a String>)
    ensures
        texts(keys@).no_duplicates(),
        texts(keys@).to_set() == callee_names(call_sites_model(call_sites@)),
{
    broadcast use vstd::seq_lib::group_seq_properties;

    let ghost model = call_sites_model(call_sites@);
    let mut seen = StringHashSet::new();
    let mut keys: Vec<&'a String> = Vec::new();
    let mut i: usize = 0;
    assert(texts(keys@).to_set() =~= seen@);
    assert(seen@ =~= callee_names(model.take(0)));
    while i < call_sites.len()
        invariant
            i <= call_sites.len(),
            model == call_sites_model(call_sites@),
            texts(keys@).no_duplicates(),
            texts(keys@).to_set() == seen@,
            seen@ == callee_names(model.take(i as int)),
        decreases call_sites.len() - i,
    {
        proof {
            assert(model.take(i + 1) =~= model.take(i as int).push(model[i as int]));
            lemma_callee_names_push(model.take(i as int), model[i as int]);
        }
        if let Some(symbol) = &call_sites[i].symbol {
            let name: &'a String = &symbol.name;
            if seen.insert(name.clone()) {
                proof {
                    texts(keys@).lemma_push_to_set_commute(name@);
                    assert(texts(keys@.push(name)) =~= texts(keys@).push(name@));
                }
                keys.push(name);
            } else {
                assert(seen@.insert(name@) =~= seen@);
            }
        }
        i += 1;
    }
    assert(model.take(call_sites.len() as int) =~= model);
    keys
}

/// The set of the callee hashes of the call sites.
fn guid_set(call_sites: &Vec<CallSiteConstraint>) -> (set: HashSet<u128>)
    ensures
        set@ == callee_guids(call_sites_model(call_sites@)),
{
    broadcast use vstd::std_specs::hash::group_hash_axioms;

    let ghost model = call_sites_model(call_sites@);
    let mut set: HashSet<u128> = HashSet::new();
    let mut i: usize = 0;
    assert(set@ =~= callee_guids(model.take(0)));
    while i < call_sites.len()
        invariant
            i <= call_sites.len(),
            model == call_sites_model(call_sites@),
            set@ == callee_guids(model.take(i as int)),
        decreases call_sites.len() - i,
    {
        proof {
            assert(model.take(i + 1) =~= model.take(i as int).push(model[i as int]));
            lemma_callee_guids_push(model.take(i as int), model[i as int]);
        }
        if let Some(g) = call_sites[i].guid {
            set.insert(g.guid);
        }
        i += 1;
    }
    assert(model.take(call_sites.len() as int) =~= model);
    set
}

/// The set of the callee names of the call sites.
fn name_set(call_sites: &Vec<CallSiteConstraint>) -> (set: StringHashSet)
    ensures
        set@ == callee_names(call_sites_model(call_sites@)),
{
    let ghost model = call_sites_model(call_sites@);
    let mut set = StringHashSet::new();
    let mut i: usize = 0;
    assert(set@ =~= callee_names(model.take(0)));
    while i < call_sites.len()
        invariant
            i <= call_sites.len(),
            model == call_sites_model(call_sites@),
            set@ == callee_names(model.take(i as int)),
        decreases call_sites.len() - i,
    {
        proof {
            assert(model.take(i + 1) =~= model.take(i as int).push(model[i as int]));
            lemma_callee_names_push(model.take(i as int), model[i as int]);
        }
        if let Some(symbol) = &call_sites[i].symbol {
            set.insert(symbol.name.clone());
        }
        i += 1;
    }
    assert(model.take(call_sites.len() as int) =~= model);
    set
}

/// How many of the keys the candidate's call sites name.
fn common_guids(keys: &Vec<u128>, candidate: &Function) -> (n: usize)
    requires
        keys@.no_duplicates(),
    ensures
        n == keys@.to_set().intersect(callee_guids(candidate@.call_sites)).len(),
{
    broadcast use vstd::std_specs::hash::group_hash_axioms;

    let theirs = guid_set(&candidate.constraints.call_sites);
    let ghost other = callee_guids(candidate@.call_sites);
    let mut n: usize = 0;
    let mut k: usize = 0;
    assert(keys@.take(0).to_set().intersect(other) =~= Set::empty());
    while k < keys.len()
        invariant
            k <= keys.len(),
            keys@.no_duplicates(),
            other == theirs@,
            n == keys@.take(k as int).to_set().intersect(other).len(),
            n <= k,
        decreases keys.len() - k,
    {
        proof {
            lemma_overlap_step(keys@, k as int, other);
        }
        if theirs.contains(&keys[k]) {
            n += 1;
        }
        k += 1;
    }
    assert(keys@.take(keys.len() as int) =~= keys@);
    n
}

/// How many of the names the candidate's call sites name.
fn common_names(keys: &Vec<&String>, candidate: &Function) -> (n: usize)
    requires
        texts(keys@).no_duplicates(),
    ensures
        n == texts(keys@).to_set().intersect(callee_names(candidate@.call_sites)).len(),
{
    let theirs = name_set(&candidate.constraints.call_sites);
    let ghost other = callee_names(candidate@.call_sites);
    let mut n: usize = 0;
    let mut k: usize = 0;
    assert(texts(keys@).take(0).to_set().intersect(other) =~= Set::empty());
    while k < keys.len()
        invariant
            k <= keys.len(),
            texts(keys@).no_duplicates(),
            other == theirs@,
            n == texts(keys@).take(k as int).to_set().intersect(other).len(),
            n <= k,
        decreases keys.len() - k,
    {
        proof {
            lemma_overlap_step(texts(keys@), k as int, other);
        }
        if theirs.contains(keys[k].as_str()) {
            n += 1;
        }
        k += 1;
    }
    assert(texts(keys@).take(keys.len() as int) =~= texts(keys@));
    n
}

/// The best score and the leader among the scores.
fn lead(scores: &Vec<usize>) -> (r: (usize, Option<usize>))
    ensures
        r.0 == best_score(as_nats(scores@)),
        match r.1 {
            Some(i) => leader(as_nats(scores@)) == Some(i as int) && i < scores.len(),
            None => leader(as_nats(scores@)) is None,
        },
{
    let ghost all = as_nats(scores@);
    let mut best: usize = 0;
    let mut ahead: Option<usize> = None;
    let mut i: usize = 0;
    while i < scores.len()
        invariant
            i <= scores.len(),
            all == as_nats(scores@),
            best == best_score(all.take(i as int)),
            match ahead {
                Some(a) => leader(all.take(i as int)) == Some(a as int) && a < i,
                None => leader(all.take(i as int)) is None,
            },
        decreases scores.len() - i,
    {
        proof {
            assert(all.take(i + 1) =~= all.take(i as int).push(all[i as int]));
            lemma_leader_push(all.take(i as int), all[i as int]);
        }
        let score = scores[i];
        if score == best {
            ahead = None;
        } else if score > best {
            best = score;
            ahead = Some(i);
        }
        i += 1;
    }
    assert(all.take(scores.len() as int) =~= all);
    (best, ahead)
}

impl Matcher {
    /// The candidate that the call-site evidence of `function` singles out, if there is one.
    pub fn match_function_from_constraints<'a>(
        &self,
        function: &SubjectFunction,
        matched_functions: &'a [Function],
    ) -> (matched: Option<&'a Function>)
        ensures
            match matched {
                Some(f) => disambiguate(function@.call_sites, functions_model(matched_functions@))
                    matches Some(i) && 0 <= i < matched_functions.len() && *f
                    == matched_functions[i],
                None => disambiguate(function@.call_sites, functions_model(matched_functions@))
                    is None,
            },
    {
        let call_sites = function.call_sites.as_slice();
        let ghost subject = call_sites_model(call_sites@);
        let ghost models = functions_model(matched_functions@);
        if call_sites.len() == 0 {
            return None;
        }
        let guid_keys = distinct_guids(call_sites);
        let name_keys = distinct_names(call_sites);
        let mut by_guid: Vec<usize> = Vec::new();
        let mut by_name: Vec<usize> = Vec::new();
        let mut i: usize = 0;
        while i < matched_functions.len()
            invariant
                i <= matched_functions.len(),
                subject == call_sites_model(call_sites@),
                models == functions_model(matched_functions@),
                guid_keys@.no_duplicates(),
                guid_keys@.to_set() == callee_guids(subject),
                texts(name_keys@).no_duplicates(),
                texts(name_keys@).to_set() == callee_names(subject),
                by_guid.len() == i,
                by_name.len() == i,
                forall|j: int|
                    0 <= j < i ==> (#[trigger] by_guid[j]) as nat == guid_score(subject, models[j]),
                forall|j: int|
                    0 <= j < i ==> (#[trigger] by_name[j]) as nat == name_score(subject, models[j]),
            decreases matched_functions.len() - i,
        {
            by_guid.push(common_guids(&guid_keys, &matched_functions[i]));
            by_name.push(common_names(&name_keys, &matched_functions[i]));
            i += 1;
        }
        assert(as_nats(by_guid@) =~= guid_scores(subject, models));
        assert(as_nats(by_name@) =~= name_scores(subject, models));
        let (best_guid, guid_leader) = lead(&by_guid);
        let (best_name, name_leader) = lead(&by_name);
        if best_name > best_guid {
            match name_leader {
                Some(n) => Some(&matched_functions[n]),
                None => None,
            }
        } else if best_guid > best_name {
            match guid_leader {
                Some(g) => Some(&matched_functions[g]),
                None => None,
            }
        } else {
            match guid_leader {
                Some(g) => match name_leader {
                    Some(n) => {
                        let same_type = matched_functions[g].ty == matched_functions[n].ty;
                        let same_name = same_symbol(
                            &matched_functions[g].symbol,
                            &matched_functions[n].symbol,
                        );
                        if same_type && same_name {
                            Some(&matched_functions[g])
                        } else {
                            None
                        }
                    },
                    None => None,
                },
                None => None,
            }
        }
    }
}

} // verus!
