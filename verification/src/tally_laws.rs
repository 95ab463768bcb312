//! The offline analysis depends on the records only as a multiset: their
//! order changes nothing.
use vstd::prelude::*;
use vstd::multiset::Multiset;
use crate::insights::{
    analysis, bump_all, bump_demand, demand_signals, demand_tallies, kept, memes_of, merge_signals, rank_key,
    rank_sort, ranked, ranks_before, record_weight, sat_add, signals_in, tallies, text_tokens,
    DemandTally,
};
use crate::properties::{lemma_rank_sort, lemma_ranks_before_order, rank_sorted};

verus! {

broadcast use vstd::seq_lib::group_to_multiset_ensures;

/// A record: its text and its weight, if any.
pub type Rec = (Seq<char>, Option<u64>);

/// The value of a tally apart from its text: count, score, signals.
pub type TallyVal = (u64, u64, Seq<Seq<char>>);

/// Folds `step` over the records, left to right.
pub open spec fn fold_recs<V>(step: spec_fn(V, Rec) -> V, v: V, s: Seq<Rec>) -> V
    decreases s.len(),
{
    if s.len() == 0 {
        v
    } else {
        step(fold_recs(step, v, s.drop_last()), s.last())
    }
}

/// `step` gives the same result whichever of two records comes first.
pub open spec fn commutes<V>(step: spec_fn(V, Rec) -> V) -> bool {
    forall|v: V, x: Rec, y: Rec| #[trigger] step(step(v, x), y) == step(step(v, y), x)
}

proof fn lemma_fold_move_last<V>(step: spec_fn(V, Rec) -> V, v: V, s: Seq<Rec>, i: int)
    requires
        commutes(step),
        0 <= i < s.len(),
    ensures
        fold_recs(step, v, s) == step(fold_recs(step, v, s.remove(i)), s[i]),
    decreases s.len(),
{
    if i == s.len() - 1 {
        assert(s.remove(i) =~= s.drop_last());
    } else {
        let p = s.drop_last();
        lemma_fold_move_last(step, v, p, i);
        assert(s.remove(i).drop_last() =~= p.remove(i));
        assert(s.remove(i).last() == s.last());
        let a = fold_recs(step, v, p.remove(i));
        assert(step(step(a, s[i]), s.last()) == step(step(a, s.last()), s[i]));
    }
}

/// Folding a commuting step over two orders of the same records gives the same value.
pub proof fn lemma_fold_permutation<V>(step: spec_fn(V, Rec) -> V, v: V, s1: Seq<Rec>, s2: Seq<Rec>)
    requires
        commutes(step),
        s1.to_multiset() == s2.to_multiset(),
    ensures
        fold_recs(step, v, s1) == fold_recs(step, v, s2),
    decreases s1.len(),
{
    if s1.len() == 0 {
        assert(s1.to_multiset().len() == s1.len());
        assert(s2.to_multiset().len() == s2.len());
    } else {
        let x = s1.last();
        assert(s1.to_multiset().count(x) > 0) by {
            assert(s1.contains(x)) by {
                assert(s1[s1.len() - 1] == x);
            }
        }
        assert(s2.contains(x));
        let i = choose|i: int| 0 <= i < s2.len() && s2[i] == x;
        lemma_fold_move_last(step, v, s2, i);
        assert(s1.drop_last() =~= s1.remove(s1.len() - 1));
        assert(s1.drop_last().to_multiset() == s1.to_multiset().remove(x));
        assert(s2.remove(i).to_multiset() == s2.to_multiset().remove(x));
        lemma_fold_permutation(step, v, s1.drop_last(), s2.remove(i));
    }
}

/// The count, score and signals of the tally of `text`, the first one found.
pub open spec fn tally_val(es: Seq<DemandTally>, text: Seq<char>) -> Option<TallyVal>
    decreases es.len(),
{
    if es.len() == 0 {
        None
    } else if es[0].0 == text {
        Some((es[0].1, es[0].2, es[0].3))
    } else {
        tally_val(es.drop_first(), text)
    }
}

/// No text is tallied twice.
pub open spec fn unique_texts(es: Seq<DemandTally>) -> bool {
    forall|i: int, j: int| 0 <= i < j < es.len() ==> #[trigger] es[i].0 != #[trigger] es[j].0
}

/// One more sighting with weight `w` and signals `s`.
pub open spec fn upd(v: Option<TallyVal>, w: u64, s: Seq<Seq<char>>) -> TallyVal {
    match v {
        None => (1u64, w, merge_signals(Seq::empty(), s)),
        Some(t) => (sat_add(t.0, 1), sat_add(t.1, w), merge_signals(t.2, s)),
    }
}

proof fn lemma_tally_val_some(es: Seq<DemandTally>, text: Seq<char>, i: int)
    requires
        0 <= i < es.len(),
        es[i].0 == text,
    ensures
        tally_val(es, text) is Some,
    decreases i,
{
    if i > 0 && es[0].0 != text {
        lemma_tally_val_some(es.drop_first(), text, i - 1);
    }
}

proof fn lemma_tally_val_at(es: Seq<DemandTally>, i: int)
    requires
        unique_texts(es),
        0 <= i < es.len(),
    ensures
        tally_val(es, es[i].0) == Some((es[i].1, es[i].2, es[i].3)),
    decreases i,
{
    if i > 0 {
        assert(es[0].0 != es[i].0);
        let r = es.drop_first();
        assert(unique_texts(r)) by {
            assert forall|a: int, b: int| 0 <= a < b < r.len() implies #[trigger] r[a].0 != #[trigger] r[b].0 by {
                assert(r[a] == es[a + 1] && r[b] == es[b + 1]);
            }
        }
        assert(r[i - 1] == es[i]);
        lemma_tally_val_at(r, i - 1);
    }
}

proof fn lemma_tally_val_found(es: Seq<DemandTally>, text: Seq<char>)
    requires
        tally_val(es, text) is Some,
    ensures
        exists|i: int| 0 <= i < es.len() && #[trigger] es[i].0 == text,
    decreases es.len(),
{
    if es[0].0 == text {
        assert(es[0].0 == text);
    } else {
        lemma_tally_val_found(es.drop_first(), text);
        let i = choose|i: int| 0 <= i < es.drop_first().len() && #[trigger] es.drop_first()[i].0 == text;
        assert(es[i + 1].0 == text);
    }
}

proof fn lemma_bump(es: Seq<DemandTally>, key: Seq<char>, w: u64, s: Seq<Seq<char>>)
    requires
        unique_texts(es),
    ensures
        unique_texts(bump_demand(es, key, w, s)),
        forall|k: Seq<char>| #[trigger] tally_val(bump_demand(es, key, w, s), k) == if k == key {
            Some(upd(tally_val(es, k), w, s))
        } else {
            tally_val(es, k)
        },
        forall|i: int|
            0 <= i < bump_demand(es, key, w, s).len() ==> #[trigger] bump_demand(es, key, w, s)[i].0 == key
                || tally_val(es, bump_demand(es, key, w, s)[i].0) is Some,
    decreases es.len(),
{
    let b = bump_demand(es, key, w, s);
    if es.len() == 0 {
        assert(b.drop_first() =~= Seq::<DemandTally>::empty());
        assert forall|k: Seq<char>| #[trigger] tally_val(b, k) == if k == key {
            Some(upd(tally_val(es, k), w, s))
        } else {
            tally_val(es, k)
        } by {
            if k != key {
                assert(tally_val(b, k) == tally_val(b.drop_first(), k));
            }
        }
    } else if es[0].0 == key {
        assert(b.drop_first() =~= es.drop_first());
        assert forall|i: int| 0 <= i < b.len() implies #[trigger] b[i].0 == key || tally_val(es, b[i].0) is Some by {
            if i > 0 {
                assert(b[i] == es[i]);
                lemma_tally_val_some(es, es[i].0, i);
            }
        }
        assert forall|k: Seq<char>| #[trigger] tally_val(b, k) == if k == key {
            Some(upd(tally_val(es, k), w, s))
        } else {
            tally_val(es, k)
        } by {
            if k != key {
                assert(tally_val(b, k) == tally_val(b.drop_first(), k));
            }
        }
        assert forall|i: int, j: int| 0 <= i < j < b.len() implies #[trigger] b[i].0 != #[trigger] b[j].0 by {
            assert(b[j] == es[j]);
            if i > 0 {
                assert(b[i] == es[i]);
            }
        }
    } else {
        let r = es.drop_first();
        assert(unique_texts(r)) by {
            assert forall|a: int, c: int| 0 <= a < c < r.len() implies #[trigger] r[a].0 != #[trigger] r[c].0 by {
                assert(r[a] == es[a + 1] && r[c] == es[c + 1]);
            }
        }
        lemma_bump(r, key, w, s);
        let br = bump_demand(r, key, w, s);
        assert(b == seq![es[0]] + br);
        assert(b.drop_first() =~= br);
        assert forall|i: int| 0 <= i < b.len() implies #[trigger] b[i].0 == key || tally_val(es, b[i].0) is Some by {
            if i == 0 {
                lemma_tally_val_some(es, es[0].0, 0);
            } else {
                assert(b[i] == br[i - 1]);
                if br[i - 1].0 != key {
                    assert(tally_val(r, br[i - 1].0) is Some);
                    lemma_tally_val_found(r, br[i - 1].0);
                    let j = choose|j: int| 0 <= j < r.len() && #[trigger] r[j].0 == br[i - 1].0;
                    assert(es[j + 1] == r[j]);
                    lemma_tally_val_some(es, br[i - 1].0, j + 1);
                }
            }
        }
        assert forall|i: int, j: int| 0 <= i < j < b.len() implies #[trigger] b[i].0 != #[trigger] b[j].0 by {
            assert(b[j] == br[j - 1]);
            if i > 0 {
                assert(b[i] == br[i - 1]);
            } else {
                if br[j - 1].0 == es[0].0 {
                    assert(br[j - 1].0 != key);
                    lemma_tally_val_found(r, br[j - 1].0);
                    let m = choose|m: int| 0 <= m < r.len() && #[trigger] r[m].0 == br[j - 1].0;
                    assert(es[m + 1] == r[m]);
                    assert(es[0].0 != es[m + 1].0);
                }
            }
        }
        assert forall|k: Seq<char>| #[trigger] tally_val(b, k) == if k == key {
            Some(upd(tally_val(es, k), w, s))
        } else {
            tally_val(es, k)
        } by {
            if es[0].0 != k {
                assert(tally_val(b, k) == tally_val(br, k));
            }
        }
    }
}

/// The value of the tally of `text` after the keys of one record, each
/// with weight `w`.
pub open spec fn apply_keys(v: Option<TallyVal>, keys: Seq<Seq<char>>, text: Seq<char>, w: u64) -> Option<TallyVal>
    decreases keys.len(),
{
    if keys.len() == 0 {
        v
    } else {
        let before = apply_keys(v, keys.drop_last(), text, w);
        if keys.last() == text {
            Some(upd(before, w, Seq::empty()))
        } else {
            before
        }
    }
}

proof fn lemma_bump_all(es: Seq<DemandTally>, keys: Seq<Seq<char>>, w: u64)
    requires
        unique_texts(es),
    ensures
        unique_texts(bump_all(es, keys, w)),
        forall|k: Seq<char>| #[trigger] tally_val(bump_all(es, keys, w), k) == apply_keys(tally_val(es, k), keys, k, w),
    decreases keys.len(),
{
    if keys.len() > 0 {
        lemma_bump_all(es, keys.drop_last(), w);
        lemma_bump(bump_all(es, keys.drop_last(), w), keys.last(), w, Seq::empty());
    }
}

/// What one record does to the tally of `text` among the words (or memes).
pub open spec fn word_step(text: Seq<char>, memes: bool) -> spec_fn(Option<TallyVal>, Rec) -> Option<TallyVal> {
    |v: Option<TallyVal>, r: Rec|
        {
            let t = crate::text::collapse_ws(r.0);
            if t.len() == 0 {
                v
            } else {
                apply_keys(
                    v,
                    if memes {
                        memes_of(t)
                    } else {
                        text_tokens(t)
                    },
                    text,
                    record_weight(r.1),
                )
            }
        }
}

/// What one record does to the tally of the demand `text`.
pub open spec fn demand_step(text: Seq<char>) -> spec_fn(Option<TallyVal>, Rec) -> Option<TallyVal> {
    |v: Option<TallyVal>, r: Rec|
        {
            let t = crate::text::collapse_ws(r.0);
            let found = signals_in(t, demand_signals());
            if t.len() == 0 || found.len() == 0 || t != text {
                v
            } else {
                Some(upd(v, record_weight(r.1), found))
            }
        }
}

proof fn lemma_tallies(records: Seq<Rec>, memes: bool)
    ensures
        unique_texts(tallies(records, memes)),
        forall|k: Seq<char>| #[trigger] tally_val(tallies(records, memes), k) == fold_recs(word_step(k, memes), None, records),
    decreases records.len(),
{
    if records.len() > 0 {
        lemma_tallies(records.drop_last(), memes);
        let t = crate::text::collapse_ws(records.last().0);
        if t.len() > 0 {
            lemma_bump_all(
                tallies(records.drop_last(), memes),
                if memes {
                    memes_of(t)
                } else {
                    text_tokens(t)
                },
                record_weight(records.last().1),
            );
        }
    }
}

proof fn lemma_demand_tallies(records: Seq<Rec>)
    ensures
        unique_texts(demand_tallies(records)),
        forall|k: Seq<char>| #[trigger] tally_val(demand_tallies(records), k) == fold_recs(demand_step(k), None, records),
    decreases records.len(),
{
    if records.len() > 0 {
        lemma_demand_tallies(records.drop_last());
        let t = crate::text::collapse_ws(records.last().0);
        let found = signals_in(t, demand_signals());
        if t.len() > 0 && found.len() > 0 {
            lemma_bump(demand_tallies(records.drop_last()), t, record_weight(records.last().1), found);
        }
    }
}

proof fn lemma_upd_commutes(v: Option<TallyVal>, w1: u64, w2: u64, s: Seq<Seq<char>>)
    ensures
        upd(Some(upd(v, w1, s)), w2, s) == upd(Some(upd(v, w2, s)), w1, s),
{
}

/// `n` sightings with weight `w` and no signals.
pub open spec fn sightings(v: Option<TallyVal>, n: nat, w: u64) -> Option<TallyVal>
    decreases n,
{
    if n == 0 {
        v
    } else {
        Some(upd(sightings(v, (n - 1) as nat, w), w, Seq::empty()))
    }
}

/// How often `text` is among the keys.
pub open spec fn key_count(keys: Seq<Seq<char>>, text: Seq<char>) -> nat
    decreases keys.len(),
{
    if keys.len() == 0 {
        0
    } else {
        key_count(keys.drop_last(), text) + if keys.last() == text {
            1nat
        } else {
            0nat
        }
    }
}

proof fn lemma_apply_keys_count(v: Option<TallyVal>, keys: Seq<Seq<char>>, text: Seq<char>, w: u64)
    ensures
        apply_keys(v, keys, text, w) == sightings(v, key_count(keys, text), w),
    decreases keys.len(),
{
    if keys.len() > 0 {
        lemma_apply_keys_count(v, keys.drop_last(), text, w);
    }
}

proof fn lemma_sightings_shift(v: Option<TallyVal>, n: nat, w1: u64, w2: u64)
    ensures
        Some(upd(sightings(v, n, w1), w2, Seq::empty())) == sightings(Some(upd(v, w2, Seq::empty())), n, w1),
    decreases n,
{
    if n > 0 {
        let p = sightings(v, (n - 1) as nat, w1);
        lemma_upd_commutes(p, w1, w2, Seq::empty());
        lemma_sightings_shift(v, (n - 1) as nat, w1, w2);
    }
}

proof fn lemma_sightings_commute(v: Option<TallyVal>, n1: nat, w1: u64, n2: nat, w2: u64)
    ensures
        sightings(sightings(v, n1, w1), n2, w2) == sightings(sightings(v, n2, w2), n1, w1),
    decreases n2,
{
    if n2 > 0 {
        lemma_sightings_commute(v, n1, w1, (n2 - 1) as nat, w2);
        lemma_sightings_shift(sightings(v, (n2 - 1) as nat, w2), n1, w1, w2);
    }
}

/// The sightings of `text` that one record makes among the words (or memes).
pub open spec fn word_count(r: Rec, text: Seq<char>, memes: bool) -> nat {
    let t = crate::text::collapse_ws(r.0);
    if t.len() == 0 {
        0
    } else {
        key_count(
            if memes {
                memes_of(t)
            } else {
                text_tokens(t)
            },
            text,
        )
    }
}

proof fn lemma_word_step(v: Option<TallyVal>, r: Rec, text: Seq<char>, memes: bool)
    ensures
        (word_step(text, memes))(v, r) == sightings(v, word_count(r, text, memes), record_weight(r.1)),
{
    let t = crate::text::collapse_ws(r.0);
    if t.len() > 0 {
        lemma_apply_keys_count(
            v,
            if memes {
                memes_of(t)
            } else {
                text_tokens(t)
            },
            text,
            record_weight(r.1),
        );
    }
}

proof fn lemma_word_step_commutes(text: Seq<char>, memes: bool)
    ensures
        commutes(word_step(text, memes)),
{
    let step = word_step(text, memes);
    assert forall|v: Option<TallyVal>, x: Rec, y: Rec| #[trigger] step(step(v, x), y) == step(step(v, y), x) by {
        lemma_word_step(v, x, text, memes);
        lemma_word_step(v, y, text, memes);
        lemma_word_step(step(v, x), y, text, memes);
        lemma_word_step(step(v, y), x, text, memes);
        lemma_sightings_commute(
            v,
            word_count(x, text, memes),
            record_weight(x.1),
            word_count(y, text, memes),
            record_weight(y.1),
        );
    }
}

proof fn lemma_demand_step_commutes(text: Seq<char>)
    ensures
        commutes(demand_step(text)),
{
    let step = demand_step(text);
    assert forall|v: Option<TallyVal>, x: Rec, y: Rec| #[trigger] step(step(v, x), y) == step(step(v, y), x) by {
        let f = signals_in(text, demand_signals());
        lemma_upd_commutes(v, record_weight(x.1), record_weight(y.1), f);
    }
}

proof fn lemma_tally_counts(es: Seq<DemandTally>)
    requires
        unique_texts(es),
    ensures
        forall|x: DemandTally| #[trigger] es.to_multiset().count(x) == if tally_val(es, x.0) == Some((x.1, x.2, x.3)) {
            1nat
        } else {
            0nat
        },
    decreases es.len(),
{
    if es.len() == 0 {
        assert forall|x: DemandTally| #[trigger] es.to_multiset().count(x) == 0 by {
            assert(!es.contains(x));
        }
    } else {
        let r = es.drop_first();
        assert(unique_texts(r)) by {
            assert forall|a: int, c: int| 0 <= a < c < r.len() implies #[trigger] r[a].0 != #[trigger] r[c].0 by {
                assert(r[a] == es[a + 1] && r[c] == es[c + 1]);
            }
        }
        lemma_tally_counts(r);
        assert(es.remove(0) =~= r);
        assert(r.to_multiset() == es.to_multiset().remove(es[0]));
        assert(es.contains(es[0]));
        assert(tally_val(r, es[0].0) is None) by {
            if tally_val(r, es[0].0) is Some {
                lemma_tally_val_found(r, es[0].0);
                let j = choose|j: int| 0 <= j < r.len() && #[trigger] r[j].0 == es[0].0;
                assert(r[j] == es[j + 1]);
                assert(es[0].0 != es[j + 1].0);
            }
        }
        assert forall|x: DemandTally| #[trigger] es.to_multiset().count(x) == if tally_val(es, x.0) == Some((x.1, x.2, x.3)) {
            1nat
        } else {
            0nat
        } by {
            assert(r.to_multiset().count(x) == r.to_multiset().count(x));
            if x == es[0] {
                assert(es.to_multiset().count(x) == r.to_multiset().count(x) + 1);
            } else {
                assert(es.to_multiset().count(x) == r.to_multiset().count(x));
                if x.0 == es[0].0 {
                    assert((x.1, x.2, x.3) != (es[0].1, es[0].2, es[0].3));
                }
            }
        }
    }
}

proof fn lemma_kept_counts(es: Seq<DemandTally>, min_count: u64)
    ensures
        forall|x: DemandTally| #[trigger] kept(es, min_count).to_multiset().count(x) == if x.1 >= min_count {
            es.to_multiset().count(x)
        } else {
            0
        },
    decreases es.len(),
{
    if es.len() == 0 {
        assert forall|x: DemandTally| #[trigger] kept(es, min_count).to_multiset().count(x) == 0 by {
            assert(!kept(es, min_count).contains(x));
        }
    } else {
        let p = es.drop_last();
        let x0 = es.last();
        lemma_kept_counts(p, min_count);
        assert(p.push(x0) =~= es);
        assert(es.to_multiset() =~= p.to_multiset().insert(x0));
        let kp = kept(p, min_count);
        if x0.1 >= min_count {
            assert(kept(es, min_count) == kp.push(x0));
            assert(kp.push(x0).to_multiset() =~= kp.to_multiset().insert(x0));
        } else {
            assert(kept(es, min_count) == kp);
        }
        assert forall|x: DemandTally| #[trigger] kept(es, min_count).to_multiset().count(x) == if x.1 >= min_count {
            es.to_multiset().count(x)
        } else {
            0
        } by {
            assert(kp.to_multiset().count(x) == kp.to_multiset().count(x));
        }
    }
}

/// The texts of a multiset of tallies are all different, and none is there twice.
pub open spec fn single_texts(m: Multiset<DemandTally>) -> bool {
    forall|x: DemandTally, y: DemandTally|
        #![trigger m.count(x), m.count(y)]
        m.count(x) > 0 && m.count(y) > 0 && x.0 == y.0 ==> x == y && m.count(x) == 1
}

proof fn lemma_sorted_unique(s1: Seq<DemandTally>, s2: Seq<DemandTally>)
    requires
        rank_sorted(s1),
        rank_sorted(s2),
        s1.to_multiset() == s2.to_multiset(),
        single_texts(s1.to_multiset()),
    ensures
        s1 == s2,
    decreases s1.len(),
{
    assert(s1.to_multiset().len() == s1.len());
    assert(s2.to_multiset().len() == s2.len());
    if s1.len() > 0 {
        let a = s1[0];
        let b = s2[0];
        assert(s1.contains(a) && s2.contains(b));
        if a != b {
            assert(s1.to_multiset().count(a) > 0 && s1.to_multiset().count(b) > 0);
            assert(a.0 != b.0);
            lemma_ranks_before_order(rank_key(a), rank_key(b), rank_key(a));
            let i = choose|i: int| 0 <= i < s1.len() && s1[i] == b;
            let j = choose|j: int| 0 <= j < s2.len() && s2[j] == a;
            assert(i != 0 && j != 0);
            assert(!ranks_before(rank_key(s1[i]), rank_key(s1[0])));
            assert(!ranks_before(rank_key(s2[j]), rank_key(s2[0])));
        }
        let t1 = s1.drop_first();
        let t2 = s2.drop_first();
        assert(s1.remove(0) =~= t1);
        assert(s2.remove(0) =~= t2);
        assert(t1.to_multiset() =~= s1.to_multiset().remove(a));
        assert(t2.to_multiset() =~= s2.to_multiset().remove(a));
        assert(rank_sorted(t1)) by {
            assert forall|i: int, j: int| 0 <= i < j < t1.len() implies !ranks_before(
                #[trigger] rank_key(t1[j]),
                #[trigger] rank_key(t1[i]),
            ) by {
                assert(t1[i] == s1[i + 1] && t1[j] == s1[j + 1]);
            }
        }
        assert(rank_sorted(t2)) by {
            assert forall|i: int, j: int| 0 <= i < j < t2.len() implies !ranks_before(
                #[trigger] rank_key(t2[j]),
                #[trigger] rank_key(t2[i]),
            ) by {
                assert(t2[i] == s2[i + 1] && t2[j] == s2[j + 1]);
            }
        }
        let m = t1.to_multiset();
        assert(single_texts(m)) by {
            assert forall|x: DemandTally, y: DemandTally|
                m.count(x) > 0 && m.count(y) > 0 && x.0 == y.0 implies x == y && m.count(x) == 1 by {
                assert(s1.to_multiset().count(x) > 0 && s1.to_multiset().count(y) > 0);
            }
        }
        lemma_sorted_unique(t1, t2);
        assert(s1 =~= seq![a] + t1);
        assert(s2 =~= seq![a] + t2);
    }
}

proof fn lemma_same_ranked(es1: Seq<DemandTally>, es2: Seq<DemandTally>, top: nat, min_count: u64)
    requires
        unique_texts(es1),
        unique_texts(es2),
        forall|k: Seq<char>| #[trigger] tally_val(es1, k) == tally_val(es2, k),
    ensures
        ranked(es1, top, min_count) == ranked(es2, top, min_count),
{
    lemma_tally_counts(es1);
    lemma_tally_counts(es2);
    lemma_kept_counts(es1, min_count);
    lemma_kept_counts(es2, min_count);
    let k1 = kept(es1, min_count);
    let k2 = kept(es2, min_count);
    assert(k1.to_multiset() =~= k2.to_multiset()) by {
        assert forall|x: DemandTally| k1.to_multiset().count(x) == k2.to_multiset().count(x) by {
            assert(es1.to_multiset().count(x) == es2.to_multiset().count(x));
        }
    }
    lemma_rank_sort(k1);
    lemma_rank_sort(k2);
    let m = rank_sort(k1).to_multiset();
    assert(single_texts(m)) by {
        assert forall|x: DemandTally, y: DemandTally|
            m.count(x) > 0 && m.count(y) > 0 && x.0 == y.0 implies x == y && m.count(x) == 1 by {
            assert(k1.to_multiset().count(x) > 0 && k1.to_multiset().count(y) > 0);
            assert(es1.to_multiset().count(x) > 0 && es1.to_multiset().count(y) > 0);
        }
    }
    lemma_sorted_unique(rank_sort(k1), rank_sort(k2));
}

/// The analysis of the records depends on them only as a multiset: any
/// reordering of the records gives the same hot words, memes and demands.
pub proof fn law_analysis_ignores_record_order(records: Seq<Rec>, others: Seq<Rec>, top: nat, min_count: u64)
    requires
        others.to_multiset() == records.to_multiset(),
    ensures
        analysis(others, top, min_count) == analysis(records, top, min_count),
{
    assert(others.to_multiset().len() == others.len());
    assert(records.to_multiset().len() == records.len());
    lemma_tallies(records, false);
    lemma_tallies(others, false);
    lemma_tallies(records, true);
    lemma_tallies(others, true);
    lemma_demand_tallies(records);
    lemma_demand_tallies(others);
    assert forall|k: Seq<char>| #[trigger] tally_val(tallies(records, false), k) == tally_val(tallies(others, false), k) by {
        lemma_word_step_commutes(k, false);
        lemma_fold_permutation(word_step(k, false), None, records, others);
    }
    assert forall|k: Seq<char>| #[trigger] tally_val(tallies(records, true), k) == tally_val(tallies(others, true), k) by {
        lemma_word_step_commutes(k, true);
        lemma_fold_permutation(word_step(k, true), None, records, others);
    }
    assert forall|k: Seq<char>| #[trigger] tally_val(demand_tallies(records), k) == tally_val(demand_tallies(others), k) by {
        lemma_demand_step_commutes(k);
        lemma_fold_permutation(demand_step(k), None, records, others);
    }
    lemma_same_ranked(tallies(records, false), tallies(others, false), top, min_count);
    lemma_same_ranked(tallies(records, true), tallies(others, true), top, min_count);
    lemma_same_ranked(demand_tallies(records), demand_tallies(others), top, min_count);
}

} // verus!
