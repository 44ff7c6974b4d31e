//! Whether the APO is registered on an endpoint, and whether the endpoint lets any
//! effect run.

use vstd::prelude::*;

use crate::text::{holds, holds_chars, on_lines, stands_at, texts};
use crate::windows::register::{
    after, any_ours, apo_clsid, apo_clsid_body, as_number, as_text, attach_plan, is_ours,
    join_plan, lowered, lowered_chars, mode_plan, ops_value, place, read_text, strip_plan,
    take_plan, without_ours, FxKey, OpView, Place, RegValue, Slot, Stage, State, ValueName,
    ValueView,
};
use crate::windows::restore::{
    clean, enabled, law_strip, lemma_concat, lemma_none, lemma_one, lemma_ours, lemma_sysfx,
    lemma_two, value_ours,
};

verus! {

/// The value holds the fragment, in any case: one of its texts does.
pub open spec fn value_holds(v: Option<ValueView>, fragment: Seq<char>) -> bool {
    match v {
        Some(ValueView::List(l)) => exists|i: int|
            0 <= i < l.len() && holds(lowered(#[trigger] l[i]), lowered(fragment)),
        _ => as_text(v) matches Some(s) && holds(lowered(s), lowered(fragment)),
    }
}

/// A slot or a list of effects.
pub open spec fn effect_name(n: ValueName) -> bool {
    n is Single || n is Composite
}

/// An effect slot of the endpoint holds the fragment.
pub open spec fn apo_present(st: State, fragment: Seq<char>) -> bool {
    exists|n: ValueName| effect_name(n) && value_holds(#[trigger] st(n), fragment)
}

/// Whether a value holds a fragment, which is given in lower case.
fn slot_holds(key: &FxKey, name: ValueName, fragment: &Vec<char>, Ghost(f): Ghost<Seq<char>>) -> (r:
    bool)
    requires
        fragment@ == lowered(f),
    ensures
        r == value_holds((key.state())(name), f),
{
    match key.get(name) {
        Some(RegValue::List(l)) => {
            for i in 0..l.len()
                invariant
                    fragment@ == lowered(f),
                    (key.state())(name) == Some(ValueView::List(texts(l@))),
                    forall|j: int|
                        0 <= j < i ==> !holds(lowered(#[trigger] texts(l@)[j]), fragment@),
            {
                if holds_chars(&lowered_chars(&l[i]), fragment) {
                    assert(holds(lowered(texts(l@)[i as int]), fragment@));
                    return true;
                }
                assert(!holds(lowered(texts(l@)[i as int]), fragment@));
            }
            false
        },
        v => match read_text(v) {
            Some(s) => holds_chars(&lowered_chars(&s), fragment),
            None => false,
        },
    }
}

/// Whether the APO whose class identifier holds the fragment is registered in any
/// effect slot of an endpoint. There is none where the endpoint has no key.
pub fn is_apo_enabled(key: Option<&FxKey>, clsid_hex: &str) -> (r: bool)
    ensures
        r == (key matches Some(k) && apo_present(k.state(), clsid_hex@)),
{
    match key {
        Some(k) => {
            let fragment: Vec<char> = lowered_chars(clsid_hex);
            let ghost st = k.state();
            let a: bool = slot_holds(k, ValueName::Single(Slot::Sfx), &fragment, Ghost(clsid_hex@));
            let b: bool = slot_holds(k, ValueName::Single(Slot::Mfx), &fragment, Ghost(clsid_hex@));
            let c: bool = slot_holds(k, ValueName::Single(Slot::Efx), &fragment, Ghost(clsid_hex@));
            let d: bool = slot_holds(k, ValueName::Single(Slot::Lfx), &fragment, Ghost(clsid_hex@));
            let e: bool = slot_holds(k, ValueName::Single(Slot::Gfx), &fragment, Ghost(clsid_hex@));
            let f: bool = slot_holds(k, ValueName::Composite(Stage::Sfx), &fragment, Ghost(clsid_hex@));
            let g: bool = slot_holds(k, ValueName::Composite(Stage::Mfx), &fragment, Ghost(clsid_hex@));
            let h: bool = slot_holds(k, ValueName::Composite(Stage::Efx), &fragment, Ghost(clsid_hex@));
            let r: bool = a || b || c || d || e || f || g || h;
            proof {
                let q = clsid_hex@;
                if apo_present(st, q) {
                    let n = choose|n: ValueName| effect_name(n) && value_holds(#[trigger] st(n), q);
                    match n {
                        ValueName::Single(Slot::Sfx) => {},
                        ValueName::Single(Slot::Mfx) => {},
                        ValueName::Single(Slot::Efx) => {},
                        ValueName::Single(Slot::Lfx) => {},
                        ValueName::Single(Slot::Gfx) => {},
                        ValueName::Composite(Stage::Sfx) => {},
                        ValueName::Composite(Stage::Mfx) => {},
                        ValueName::Composite(Stage::Efx) => {},
                        _ => {},
                    }
                }
            }
            r
        },
        None => false,
    }
}

/// Enhancements are on unless the setting that turns them off is 1.
pub open spec fn enhancements_on(st: State) -> bool {
    as_number(st(ValueName::DisableSysfx)) != Some(1u32)
}

/// Whether enhancements are on for an endpoint; with them off no effect runs. They
/// are on where the endpoint has no key.
pub fn enhancements_enabled(key: Option<&FxKey>) -> (r: bool)
    ensures
        r == (key matches Some(k) ==> enhancements_on(k.state())),
{
    match key {
        Some(k) => match k.get(ValueName::DisableSysfx) {
            Some(RegValue::Number(1)) => false,
            _ => true,
        },
        None => true,
    }
}

proof fn lemma_mode_frame(m: Option<ValueView>, stage: Stage, v: Option<ValueView>, n: ValueName)
    requires
        effect_name(n),
    ensures
        ops_value(v, mode_plan(m, stage), n) == v,
{
    let plan = mode_plan(m, stage);
    lemma_none(v, n);
    if plan.len() > 0 {
        lemma_two(v, plan[0], plan[1], n);
        assert(plan =~= seq![plan[0], plan[1]]);
    }
}

/// The lower-case form of the APO's identifier is itself.
proof fn lemma_body_lowered()
    ensures
        lowered(apo_clsid_body()) == apo_clsid_body(),
{
    reveal_strlit("7f4a1e02-9c3b-4d5a-8e21-ad7c0c0ffee1");
    assert(lowered(apo_clsid_body()) =~= apo_clsid_body());
}

/// An endpoint on which the APO has been enabled is seen to have it, with
/// enhancements on.
pub proof fn law_enabled_is_seen(st: State)
    requires
        clean(st),
    ensures
        apo_present(enabled(st), apo_clsid_body()),
        enhancements_on(enabled(st)),
{
    let attached = after(st, attach_plan(st));
    lemma_body_lowered();
    lemma_ours();
    lemma_sysfx(attached, ValueName::DisableSysfx);
    let ours = apo_clsid();
    match place(st) {
        Place::Composite(stage) => {
            let n = ValueName::Composite(stage);
            let plan = join_plan(st(n), stage);
            let m = st(ValueName::Modes(stage));
            assert(!value_ours(st(ValueName::Composite(stage))));
            assert(plan =~= seq![plan[0]]);
            lemma_one(st(n), plan[0], n);
            lemma_concat(st(n), plan, mode_plan(m, stage), n);
            lemma_sysfx(attached, n);
            let l = match plan[0] {
                OpView::Write(_, ValueView::List(l), _) => l,
                _ => seq![],
            };
            lemma_mode_frame(m, stage, Some(ValueView::List(l)), n);
            assert(l[l.len() - 1] == ours);
            assert(holds(lowered(l[l.len() - 1]), lowered(apo_clsid_body())));
            assert(value_holds((enabled(st))(n), apo_clsid_body()));
        },
        Place::Single(slot) => {
            let n = ValueName::Single(slot);
            let plan = take_plan(st(n), slot);
            let v = Some(ValueView::Text(ours));
            if plan.len() == 2 {
                assert(plan =~= seq![plan[0], plan[1]]);
                lemma_two(st(n), plan[0], plan[1], n);
            } else {
                assert(plan =~= seq![plan[0]]);
                lemma_one(st(n), plan[0], n);
            }
            lemma_sysfx(attached, n);
            match slot {
                Slot::Sfx => {
                    let m = st(ValueName::Modes(Stage::Sfx));
                    lemma_concat(st(n), plan, mode_plan(m, Stage::Sfx), n);
                    lemma_mode_frame(m, Stage::Sfx, v, n);
                },
                Slot::Mfx => {
                    let m = st(ValueName::Modes(Stage::Mfx));
                    lemma_concat(st(n), plan, mode_plan(m, Stage::Mfx), n);
                    lemma_mode_frame(m, Stage::Mfx, v, n);
                },
                Slot::Efx => {
                    let m = st(ValueName::Modes(Stage::Efx));
                    lemma_concat(st(n), plan, mode_plan(m, Stage::Efx), n);
                    lemma_mode_frame(m, Stage::Efx, v, n);
                },
                _ => {
                    assert(plan + Seq::<OpView>::empty() =~= plan);
                },
            }
            assert(value_holds((enabled(st))(n), apo_clsid_body()));
        },
        Place::Fresh => {
            let n = ValueName::Single(Slot::Sfx);
            let plan = attach_plan(st);
            let m = st(ValueName::Modes(Stage::Sfx));
            let first = seq![plan[0]];
            lemma_one(st(n), plan[0], n);
            lemma_concat(st(n), first, mode_plan(m, Stage::Sfx), n);
            assert(plan =~= first + mode_plan(m, Stage::Sfx));
            lemma_mode_frame(m, Stage::Sfx, Some(ValueView::Text(ours)), n);
            lemma_sysfx(attached, n);
            assert(value_holds((enabled(st))(n), apo_clsid_body()));
        },
    }
}

proof fn lemma_without_is_clean(l: Seq<Seq<char>>)
    ensures
        !any_ours(without_ours(l)),
    decreases l.len(),
{
    if l.len() > 0 {
        lemma_without_is_clean(l.drop_last());
        let r = without_ours(l);
        let before = without_ours(l.drop_last());
        assert forall|i: int| 0 <= i < r.len() implies !is_ours(#[trigger] r[i]) by {
            if i < before.len() {
                assert(r[i] == before[i]);
                assert(!is_ours(before[i]));
            }
        }
    }
}

proof fn lemma_without_shorter(l: Seq<Seq<char>>)
    ensures
        without_ours(l).len() <= l.len(),
        without_ours(l).len() == l.len() ==> without_ours(l) == l,
    decreases l.len(),
{
    if l.len() > 0 {
        lemma_without_shorter(l.drop_last());
        assert(l.drop_last().push(l.last()) =~= l);
    } else {
        assert(without_ours(l) =~= l);
    }
}

/// A text of a list stands in the lines of the list.
proof fn lemma_on_lines(l: Seq<Seq<char>>, i: int) -> (k: int)
    requires
        0 <= i < l.len(),
    ensures
        stands_at(on_lines(l), l[i], k),
    decreases l.len(),
{
    let s = on_lines(l);
    if l.len() == 1 {
        assert(s.subrange(0, s.len() as int) =~= l[i]);
        0
    } else if i < l.len() - 1 {
        let k = lemma_on_lines(l.drop_last(), i);
        let t = on_lines(l.drop_last());
        assert(s.subrange(k, k + l[i].len()) =~= t.subrange(k, k + l[i].len()));
        k
    } else {
        let k: int = s.len() - l[i].len();
        assert(s.subrange(k, k + l[i].len()) =~= l[i]);
        k
    }
}

/// A list that names the APO does so as a whole too.
proof fn lemma_lines_ours(l: Seq<Seq<char>>)
    requires
        any_ours(l),
    ensures
        is_ours(on_lines(l)),
{
    let i = choose|i: int| 0 <= i < l.len() && is_ours(#[trigger] l[i]);
    let k = lemma_on_lines(l, i);
    let b = apo_clsid_body();
    let j = choose|j: int| stands_at(lowered(l[i]), b, j);
    let s = on_lines(l);
    assert(s.subrange(k, k + l[i].len()) == l[i]);
    assert forall|x: int| 0 <= x < l[i].len() implies lowered(s)[k + x] == lowered(l[i])[x] by {
        assert(s.subrange(k, k + l[i].len())[x] == s[k + x]);
    }
    assert(lowered(s).subrange(k + j, k + j + b.len()) =~= lowered(l[i]).subrange(j, j + b.len()));
    assert(stands_at(lowered(s), b, k + j));
}

/// An endpoint from which the APO has been taken off is seen to have it no more. A
/// backup that itself names the APO is left out: it would come back as it is.
pub proof fn law_stripped_is_not_seen(st: State)
    requires
        forall|slot: Slot|
            !(as_text(#[trigger] st(ValueName::Backup(slot))) matches Some(s) && is_ours(s)),
    ensures
        !apo_present(after(st, strip_plan(st)), apo_clsid_body()),
{
    let g = after(st, strip_plan(st));
    lemma_body_lowered();
    assert forall|n: ValueName| effect_name(n) implies !value_holds(
        #[trigger] g(n),
        apo_clsid_body(),
    ) by {
        law_strip(st, n);
        match n {
            ValueName::Single(slot) => {
                assert(!(as_text(st(ValueName::Backup(slot))) matches Some(s) && is_ours(s)));
                match st(n) {
                    Some(ValueView::List(l)) => {
                        if any_ours(l) {
                            lemma_lines_ours(l);
                        } else {
                            assert forall|i: int| 0 <= i < l.len() implies !holds(
                                lowered(#[trigger] l[i]),
                                lowered(apo_clsid_body()),
                            ) by {
                                assert(!is_ours(l[i]));
                            }
                        }
                    },
                    _ => {},
                }
            },
            ValueName::Composite(_) => {
                match st(n) {
                    Some(ValueView::List(l)) => {
                        lemma_without_is_clean(l);
                        lemma_without_shorter(l);
                        let r = without_ours(l);
                        assert forall|i: int| 0 <= i < r.len() implies !holds(
                            lowered(#[trigger] r[i]),
                            lowered(apo_clsid_body()),
                        ) by {
                            assert(!is_ours(r[i]));
                        }
                    },
                    _ => {},
                }
            },
            _ => {},
        }
    }
}

} // verus!
