//! Taking the APO off an endpoint restores what was there before it was put on.

use vstd::prelude::*;

use crate::text::{alike, stands_at, trim};
use crate::windows::register::{after, any_ours, apo_clsid, apo_clsid_body, as_list, as_number, as_text, attach_plan, has_default, is_ours, join_plan, lowered, mode_default, mode_plan, op_value, ops_value, place, strip_composite, strip_modes, strip_plan, strip_single, strip_sysfx, sysfx_plan, take_plan, without_ours, OpView, Place, Slot, Stage, State, ValueName, ValueView};

verus! {

pub(crate) proof fn lemma_concat(v: Option<ValueView>, a: Seq<OpView>, b: Seq<OpView>, n: ValueName)
    ensures
        ops_value(v, a + b, n) == ops_value(ops_value(v, a, n), b, n),
    decreases b.len(),
{
    if b.len() == 0 {
        assert(a + b =~= a);
    } else {
        lemma_concat(v, a, b.drop_last(), n);
        assert((a + b).drop_last() =~= a + b.drop_last());
    }
}

pub(crate) proof fn lemma_none(v: Option<ValueView>, n: ValueName)
    ensures
        ops_value(v, seq![], n) == v,
{
}

pub(crate) proof fn lemma_one(v: Option<ValueView>, a: OpView, n: ValueName)
    ensures
        ops_value(v, seq![a], n) == op_value(v, a, n),
{
    assert(seq![a].drop_last() =~= seq![]);
    lemma_none(v, n);
}

pub(crate) proof fn lemma_two(v: Option<ValueView>, a: OpView, b: OpView, n: ValueName)
    ensures
        ops_value(v, seq![a, b], n) == op_value(op_value(v, a, n), b, n),
{
    assert(seq![a, b].drop_last() =~= seq![a]);
    lemma_one(v, a, n);
}

/// The value that stands under a name once the APO is off.
pub open spec fn stripped(st: State, name: ValueName) -> Option<ValueView> {
    match name {
        ValueName::Single(slot) => match as_text(st(name)) {
            Some(s) => if is_ours(s) {
                match as_text(st(ValueName::Backup(slot))) {
                    Some(original) => Some(ValueView::Text(original)),
                    None => None,
                }
            } else {
                st(name)
            },
            None => st(name),
        },
        ValueName::Composite(_) => match st(name) {
            Some(ValueView::List(l)) => if without_ours(l).len() == l.len() {
                st(name)
            } else if without_ours(l).len() == 0 {
                None
            } else {
                Some(ValueView::List(without_ours(l)))
            },
            v => match as_text(v) {
                Some(s) => if is_ours(s) {
                    None
                } else {
                    v
                },
                None => v,
            },
        },
        ValueName::Modes(stage) => if as_number(st(ValueName::ModesCreated(stage))) is Some {
            None
        } else {
            match as_list(st(ValueName::ModesBackup(stage))) {
                Some(l) => Some(ValueView::List(l)),
                None => st(name),
            }
        },
        ValueName::DisableSysfx => if as_number(st(ValueName::SysfxBackup)) == Some(1u32) {
            Some(ValueView::Number(1))
        } else {
            st(name)
        },
        _ => None,
    }
}

proof fn lemma_strip_single(st: State, slot: Slot, v: Option<ValueView>, n: ValueName)
    ensures
        n == ValueName::Single(slot) && v == st(n) ==> ops_value(v, strip_single(st, slot), n)
            == stripped(st, n),
        n == ValueName::Backup(slot) ==> ops_value(v, strip_single(st, slot), n) is None,
        n != ValueName::Single(slot) && n != ValueName::Backup(slot) ==> ops_value(
            v,
            strip_single(st, slot),
            n,
        ) == v,
{
    let name = ValueName::Single(slot);
    let backup = ValueName::Backup(slot);
    let last = seq![OpView::Remove(backup)];
    let first = match as_text(st(name)) {
        Some(x) => if is_ours(x) {
            match as_text(st(backup)) {
                Some(original) => seq![OpView::Write(name, ValueView::Text(original), None)],
                None => seq![OpView::Remove(name)],
            }
        } else {
            seq![]
        },
        None => seq![],
    };
    lemma_concat(v, first, last, n);
    lemma_one(ops_value(v, first, n), OpView::Remove(backup), n);
    lemma_none(v, n);
    match as_text(st(backup)) {
        Some(original) => {
            lemma_one(v, OpView::Write(name, ValueView::Text(original), None), n);
        },
        None => {
            lemma_one(v, OpView::Remove(name), n);
        },
    }
}

proof fn lemma_strip_composite(st: State, stage: Stage, v: Option<ValueView>, n: ValueName)
    ensures
        n == ValueName::Composite(stage) && v == st(n) ==> ops_value(
            v,
            strip_composite(st, stage),
            n,
        ) == stripped(st, n),
        n != ValueName::Composite(stage) ==> ops_value(v, strip_composite(st, stage), n) == v,
{
    let name = ValueName::Composite(stage);
    lemma_none(v, n);
    lemma_one(v, OpView::Remove(name), n);
    match st(name) {
        Some(ValueView::List(l)) => {
            lemma_one(v, OpView::Write(name, ValueView::List(without_ours(l)), None), n);
        },
        _ => {},
    }
}

proof fn lemma_strip_modes(st: State, stage: Stage, v: Option<ValueView>, n: ValueName)
    ensures
        n == ValueName::Modes(stage) && v == st(n) ==> ops_value(v, strip_modes(st, stage), n)
            == stripped(st, n),
        n == ValueName::ModesCreated(stage) || n == ValueName::ModesBackup(stage) ==> ops_value(
            v,
            strip_modes(st, stage),
            n,
        ) is None,
        n != ValueName::Modes(stage) && n != ValueName::ModesCreated(stage) && n
            != ValueName::ModesBackup(stage) ==> ops_value(v, strip_modes(st, stage), n) == v,
{
    let name = ValueName::Modes(stage);
    let created = ValueName::ModesCreated(stage);
    let backup = ValueName::ModesBackup(stage);
    let last = seq![OpView::Remove(created), OpView::Remove(backup)];
    let first = if as_number(st(created)) is Some {
        seq![OpView::Remove(name)]
    } else {
        match as_list(st(backup)) {
            Some(original) => seq![OpView::Write(name, ValueView::List(original), None)],
            None => seq![],
        }
    };
    lemma_concat(v, first, last, n);
    lemma_two(ops_value(v, first, n), OpView::Remove(created), OpView::Remove(backup), n);
    lemma_none(v, n);
    lemma_one(v, OpView::Remove(name), n);
    match as_list(st(backup)) {
        Some(original) => {
            lemma_one(v, OpView::Write(name, ValueView::List(original), None), n);
        },
        None => {},
    }
}

proof fn lemma_strip_sysfx(st: State, v: Option<ValueView>, n: ValueName)
    ensures
        n == ValueName::DisableSysfx && v == st(n) ==> ops_value(v, strip_sysfx(st), n) == stripped(
            st,
            n,
        ),
        n == ValueName::SysfxBackup ==> ops_value(v, strip_sysfx(st), n) is None,
        n != ValueName::DisableSysfx && n != ValueName::SysfxBackup ==> ops_value(
            v,
            strip_sysfx(st),
            n,
        ) == v,
{
    let set = OpView::Write(ValueName::DisableSysfx, ValueView::Number(1), None);
    let last = seq![OpView::Remove(ValueName::SysfxBackup)];
    let first = if as_number(st(ValueName::SysfxBackup)) == Some(1u32) {
        seq![set]
    } else {
        seq![]
    };
    lemma_concat(v, first, last, n);
    lemma_one(ops_value(v, first, n), OpView::Remove(ValueName::SysfxBackup), n);
    lemma_none(v, n);
    lemma_one(v, set, n);
}

/// What taking the APO off makes of every value: what was displaced or changed comes
/// back, the APO is gone, and no backup is left.
pub proof fn law_strip(st: State, n: ValueName)
    ensures
        (after(st, strip_plan(st)))(n) == stripped(st, n),
{
    let v0 = st(n);
    let a1 = strip_single(st, Slot::Sfx);
    let a2 = strip_single(st, Slot::Mfx);
    let a3 = strip_single(st, Slot::Efx);
    let a4 = strip_single(st, Slot::Lfx);
    let a5 = strip_single(st, Slot::Gfx);
    let a6 = strip_composite(st, Stage::Sfx);
    let a7 = strip_composite(st, Stage::Mfx);
    let a8 = strip_composite(st, Stage::Efx);
    let a9 = strip_modes(st, Stage::Sfx);
    let a10 = strip_modes(st, Stage::Mfx);
    let a11 = strip_modes(st, Stage::Efx);
    let a12 = strip_sysfx(st);
    let v1 = ops_value(v0, a1, n);
    let v2 = ops_value(v1, a2, n);
    let v3 = ops_value(v2, a3, n);
    let v4 = ops_value(v3, a4, n);
    let v5 = ops_value(v4, a5, n);
    let v6 = ops_value(v5, a6, n);
    let v7 = ops_value(v6, a7, n);
    let v8 = ops_value(v7, a8, n);
    let v9 = ops_value(v8, a9, n);
    let v10 = ops_value(v9, a10, n);
    let v11 = ops_value(v10, a11, n);
    lemma_concat(v0, a1, a2, n);
    lemma_concat(v0, a1 + a2, a3, n);
    lemma_concat(v0, a1 + a2 + a3, a4, n);
    lemma_concat(v0, a1 + a2 + a3 + a4, a5, n);
    lemma_concat(v0, a1 + a2 + a3 + a4 + a5, a6, n);
    lemma_concat(v0, a1 + a2 + a3 + a4 + a5 + a6, a7, n);
    lemma_concat(v0, a1 + a2 + a3 + a4 + a5 + a6 + a7, a8, n);
    lemma_concat(v0, a1 + a2 + a3 + a4 + a5 + a6 + a7 + a8, a9, n);
    lemma_concat(v0, a1 + a2 + a3 + a4 + a5 + a6 + a7 + a8 + a9, a10, n);
    lemma_concat(v0, a1 + a2 + a3 + a4 + a5 + a6 + a7 + a8 + a9 + a10, a11, n);
    lemma_concat(v0, a1 + a2 + a3 + a4 + a5 + a6 + a7 + a8 + a9 + a10 + a11, a12, n);
    lemma_strip_single(st, Slot::Sfx, v0, n);
    lemma_strip_single(st, Slot::Mfx, v1, n);
    lemma_strip_single(st, Slot::Efx, v2, n);
    lemma_strip_single(st, Slot::Lfx, v3, n);
    lemma_strip_single(st, Slot::Gfx, v4, n);
    lemma_strip_composite(st, Stage::Sfx, v5, n);
    lemma_strip_composite(st, Stage::Mfx, v6, n);
    lemma_strip_composite(st, Stage::Efx, v7, n);
    lemma_strip_modes(st, Stage::Sfx, v8, n);
    lemma_strip_modes(st, Stage::Mfx, v9, n);
    lemma_strip_modes(st, Stage::Efx, v10, n);
    lemma_strip_sysfx(st, v11, n);
    match n {
        ValueName::Single(Slot::Sfx) => {},
        ValueName::Single(Slot::Mfx) => {},
        ValueName::Single(Slot::Efx) => {},
        ValueName::Single(Slot::Lfx) => {},
        ValueName::Single(Slot::Gfx) => {},
        ValueName::Composite(Stage::Sfx) => {},
        ValueName::Composite(Stage::Mfx) => {},
        ValueName::Composite(Stage::Efx) => {},
        ValueName::Backup(Slot::Sfx) => {},
        ValueName::Backup(Slot::Mfx) => {},
        ValueName::Backup(Slot::Efx) => {},
        ValueName::Backup(Slot::Lfx) => {},
        ValueName::Backup(Slot::Gfx) => {},
        ValueName::Modes(Stage::Sfx) => {},
        ValueName::Modes(Stage::Mfx) => {},
        ValueName::Modes(Stage::Efx) => {},
        ValueName::ModesCreated(Stage::Sfx) => {},
        ValueName::ModesCreated(Stage::Mfx) => {},
        ValueName::ModesCreated(Stage::Efx) => {},
        ValueName::ModesBackup(Stage::Sfx) => {},
        ValueName::ModesBackup(Stage::Mfx) => {},
        ValueName::ModesBackup(Stage::Efx) => {},
        ValueName::DisableSysfx => {},
        ValueName::SysfxBackup => {},
    }
}

/// The value names the APO.
pub open spec fn value_ours(v: Option<ValueView>) -> bool {
    match v {
        Some(ValueView::List(l)) => any_ours(l),
        _ => as_text(v) matches Some(s) && is_ours(s),
    }
}

/// Neither the APO nor a backup is anywhere on the endpoint.
pub open spec fn clean(st: State) -> bool {
    &&& forall|slot: Slot|
        !(as_text(#[trigger] st(ValueName::Single(slot))) matches Some(s) && is_ours(s))
    &&& forall|stage: Stage| !value_ours(#[trigger] st(ValueName::Composite(stage)))
    &&& forall|slot: Slot| #[trigger] st(ValueName::Backup(slot)) is None
    &&& forall|stage: Stage| #[trigger] st(ValueName::ModesCreated(stage)) is None
    &&& forall|stage: Stage| #[trigger] st(ValueName::ModesBackup(stage)) is None
    &&& st(ValueName::SysfxBackup) is None
}

/// The modes of a stage come back as they were: there are none, or they are a list,
/// or they need no change.
pub open spec fn modes_restorable(v: Option<ValueView>) -> bool {
    match v {
        None => true,
        Some(ValueView::List(_)) => true,
        _ => as_text(v) matches Some(s) && alike(s, mode_default()),
    }
}

/// What enabling changes comes back as it was. A list of effects that is empty or
/// written as a text, an effect that is blank or not a plain text, modes written as
/// another text, and a setting of the enhancements other than off would not: they
/// come back in another form, or not at all.
pub open spec fn restorable(st: State) -> bool {
    &&& match place(st) {
        Place::Composite(stage) => {
            &&& st(ValueName::Composite(stage)) matches Some(ValueView::List(l)) && l.len() > 0
            &&& modes_restorable(st(ValueName::Modes(stage)))
        },
        Place::Single(slot) => {
            &&& st(ValueName::Single(slot)) matches Some(ValueView::Text(s)) && trim(s).len() > 0
            &&& match slot {
                Slot::Sfx => modes_restorable(st(ValueName::Modes(Stage::Sfx))),
                Slot::Mfx => modes_restorable(st(ValueName::Modes(Stage::Mfx))),
                Slot::Efx => modes_restorable(st(ValueName::Modes(Stage::Efx))),
                _ => true,
            }
        },
        Place::Fresh => {
            &&& st(ValueName::Single(Slot::Sfx)) is None
            &&& modes_restorable(st(ValueName::Modes(Stage::Sfx)))
        },
    }
    &&& st(ValueName::DisableSysfx) is None || st(ValueName::DisableSysfx) == Some(
        ValueView::Number(1),
    )
}

/// The values of an endpoint on which the APO has been enabled: attached first,
/// enhancements turned on last.
pub open spec fn enabled(st: State) -> State {
    let attached = after(st, attach_plan(st));
    after(attached, sysfx_plan(attached))
}

pub(crate) proof fn lemma_ours()
    ensures
        is_ours(apo_clsid()),
{
    reveal_strlit("{7f4a1e02-9c3b-4d5a-8e21-ad7c0c0ffee1}");
    reveal_strlit("7f4a1e02-9c3b-4d5a-8e21-ad7c0c0ffee1");
    let s = lowered(apo_clsid());
    let b = apo_clsid_body();
    assert(s.subrange(1, 37) =~= b);
    assert(stands_at(s, b, 1));
}

proof fn lemma_without_none(l: Seq<Seq<char>>)
    requires
        !any_ours(l),
    ensures
        without_ours(l) == l,
    decreases l.len(),
{
    if l.len() > 0 {
        let t = l.drop_last();
        assert(!is_ours(l[l.len() - 1]));
        assert forall|i: int| 0 <= i < t.len() implies !is_ours(#[trigger] t[i]) by {
            assert(!is_ours(l[i]));
        }
        lemma_without_none(t);
        assert(t.push(l.last()) =~= l);
    } else {
        assert(without_ours(l) =~= l);
    }
}

proof fn lemma_without_added(l: Seq<Seq<char>>)
    requires
        !any_ours(l),
    ensures
        without_ours(l.push(apo_clsid())) == l,
{
    lemma_ours();
    lemma_without_none(l);
    assert(l.push(apo_clsid()).drop_last() =~= l);
}

/// What declaring the default mode makes of a value.
proof fn lemma_mode(st: State, stage: Stage, v: Option<ValueView>, n: ValueName)
    requires
        modes_restorable(st(ValueName::Modes(stage))),
    ensures
        ({
            let m = st(ValueName::Modes(stage));
            let r = ops_value(v, mode_plan(m, stage), n);
            &&& n != ValueName::Modes(stage) && n != ValueName::ModesCreated(stage) && n
                != ValueName::ModesBackup(stage) ==> r == v
            &&& n == ValueName::ModesCreated(stage) ==> r == if m is None {
                Some(ValueView::Number(1))
            } else {
                v
            }
            &&& n == ValueName::ModesBackup(stage) ==> r == match m {
                Some(ValueView::List(l)) => if has_default(l) {
                    v
                } else {
                    m
                },
                _ => v,
            }
            &&& n == ValueName::Modes(stage) && m is Some && (as_list(m) is None || has_default(
                as_list(m)->0,
            )) ==> r == v
        }),
{
    let m = st(ValueName::Modes(stage));
    let plan = mode_plan(m, stage);
    lemma_none(v, n);
    match m {
        None => {
            lemma_two(v, plan[0], plan[1], n);
            assert(plan =~= seq![plan[0], plan[1]]);
        },
        Some(ValueView::List(l)) => {
            if !has_default(l) {
                lemma_two(v, plan[0], plan[1], n);
                assert(plan =~= seq![plan[0], plan[1]]);
            }
        },
        _ => {
            let s = as_text(m)->0;
            assert(alike(seq![s][0], mode_default()));
            assert(has_default(seq![s]));
        },
    }
}

pub(crate) proof fn lemma_sysfx(st: State, n: ValueName)
    ensures
        n != ValueName::SysfxBackup && n != ValueName::DisableSysfx ==> (after(
            st,
            sysfx_plan(st),
        ))(n) == st(n),
        n == ValueName::DisableSysfx ==> (after(st, sysfx_plan(st)))(n) is None,
        n == ValueName::SysfxBackup ==> (after(st, sysfx_plan(st)))(n) == if as_number(
            st(ValueName::DisableSysfx),
        ) == Some(1u32) {
            Some(ValueView::Number(1))
        } else {
            st(n)
        },
{
    let v = st(n);
    let set = OpView::Write(ValueName::SysfxBackup, ValueView::Number(1), None);
    let last = seq![OpView::Remove(ValueName::DisableSysfx)];
    let first = if as_number(st(ValueName::DisableSysfx)) == Some(1u32) {
        seq![set]
    } else {
        seq![]
    };
    lemma_concat(v, first, last, n);
    lemma_one(ops_value(v, first, n), OpView::Remove(ValueName::DisableSysfx), n);
    lemma_none(v, n);
    lemma_one(v, set, n);
}

/// What attaching makes of the values other than those of the modes.
pub(crate) proof fn lemma_attach(st: State, n: ValueName)
    requires
        clean(st),
        restorable(st),
    ensures
        ({
            let r = (after(st, attach_plan(st)))(n);
            let v = st(n);
            match place(st) {
                Place::Composite(stage) => {
                    let l = as_list(st(ValueName::Composite(stage)))->0;
                    let x = if n == ValueName::Composite(stage) {
                        Some(ValueView::List(l.push(apo_clsid())))
                    } else {
                        v
                    };
                    r == ops_value(x, mode_plan(st(ValueName::Modes(stage)), stage), n)
                },
                Place::Single(slot) => {
                    let x = if n == ValueName::Single(slot) {
                        Some(ValueView::Text(apo_clsid()))
                    } else if n == ValueName::Backup(slot) {
                        st(ValueName::Single(slot))
                    } else {
                        v
                    };
                    match slot {
                        Slot::Sfx => r == ops_value(
                            x,
                            mode_plan(st(ValueName::Modes(Stage::Sfx)), Stage::Sfx),
                            n,
                        ),
                        Slot::Mfx => r == ops_value(
                            x,
                            mode_plan(st(ValueName::Modes(Stage::Mfx)), Stage::Mfx),
                            n,
                        ),
                        Slot::Efx => r == ops_value(
                            x,
                            mode_plan(st(ValueName::Modes(Stage::Efx)), Stage::Efx),
                            n,
                        ),
                        _ => r == x,
                    }
                },
                Place::Fresh => {
                    let x = if n == ValueName::Single(Slot::Sfx) {
                        Some(ValueView::Text(apo_clsid()))
                    } else {
                        v
                    };
                    r == ops_value(x, mode_plan(st(ValueName::Modes(Stage::Sfx)), Stage::Sfx), n)
                },
            }
        }),
{
    let v = st(n);
    match place(st) {
        Place::Composite(stage) => {
            let c = st(ValueName::Composite(stage));
            let plan = join_plan(c, stage);
            assert(!value_ours(st(ValueName::Composite(stage))));
            assert(plan =~= seq![plan[0]]);
            lemma_one(v, plan[0], n);
            lemma_concat(v, plan, mode_plan(st(ValueName::Modes(stage)), stage), n);
        },
        Place::Single(slot) => {
            let c = st(ValueName::Single(slot));
            let plan = take_plan(c, slot);
            assert(plan =~= seq![plan[0], plan[1]]);
            lemma_two(v, plan[0], plan[1], n);
            match slot {
                Slot::Sfx => {
                    lemma_concat(v, plan, mode_plan(st(ValueName::Modes(Stage::Sfx)), Stage::Sfx), n);
                },
                Slot::Mfx => {
                    lemma_concat(v, plan, mode_plan(st(ValueName::Modes(Stage::Mfx)), Stage::Mfx), n);
                },
                Slot::Efx => {
                    lemma_concat(v, plan, mode_plan(st(ValueName::Modes(Stage::Efx)), Stage::Efx), n);
                },
                _ => {
                    assert(plan + Seq::<OpView>::empty() =~= plan);
                },
            }
        },
        Place::Fresh => {
            let plan = attach_plan(st);
            let first = seq![plan[0]];
            lemma_one(v, plan[0], n);
            lemma_concat(v, first, mode_plan(st(ValueName::Modes(Stage::Sfx)), Stage::Sfx), n);
            assert(plan =~= first + mode_plan(st(ValueName::Modes(Stage::Sfx)), Stage::Sfx));
        },
    }
}

/// The stage whose modes are declared where the APO is attached.
pub open spec fn declared(st: State) -> Option<Stage> {
    match place(st) {
        Place::Composite(stage) => Some(stage),
        Place::Single(Slot::Sfx) => Some(Stage::Sfx),
        Place::Single(Slot::Mfx) => Some(Stage::Mfx),
        Place::Single(Slot::Efx) => Some(Stage::Efx),
        Place::Single(_) => None,
        Place::Fresh => Some(Stage::Sfx),
    }
}

/// The values of an enabled endpoint.
pub(crate) proof fn lemma_enabled(st: State, n: ValueName)
    requires
        clean(st),
        restorable(st),
    ensures
        ({
            let r = (enabled(st))(n);
            let v = st(n);
            match n {
                ValueName::Composite(stage) => r == if place(st) == Place::Composite(stage) {
                    Some(ValueView::List(as_list(v)->0.push(apo_clsid())))
                } else {
                    v
                },
                ValueName::Single(slot) => r == if place(st) == Place::Single(slot) || (place(st)
                    == Place::Fresh && slot == Slot::Sfx) {
                    Some(ValueView::Text(apo_clsid()))
                } else {
                    v
                },
                ValueName::Backup(slot) => r == if place(st) == Place::Single(slot) {
                    st(ValueName::Single(slot))
                } else {
                    None
                },
                ValueName::ModesCreated(stage) => r == if declared(st) == Some(stage) && st(
                    ValueName::Modes(stage),
                ) is None {
                    Some(ValueView::Number(1))
                } else {
                    None
                },
                ValueName::ModesBackup(stage) => r == if declared(st) == Some(stage) && as_list(
                    st(ValueName::Modes(stage)),
                ) is Some && !has_default(as_list(st(ValueName::Modes(stage)))->0) {
                    st(ValueName::Modes(stage))
                } else {
                    None
                },
                ValueName::Modes(stage) => declared(st) == Some(stage) && (v is None || (as_list(v)
                    is Some && !has_default(as_list(v)->0))) || r == v,
                ValueName::DisableSysfx => r is None,
                ValueName::SysfxBackup => r == if v == st(ValueName::SysfxBackup) && st(
                    ValueName::DisableSysfx,
                ) is Some {
                    Some(ValueView::Number(1))
                } else {
                    None
                },
            }
        }),
{
    let attached = after(st, attach_plan(st));
    lemma_attach(st, n);
    lemma_attach(st, ValueName::DisableSysfx);
    lemma_sysfx(attached, n);
    match place(st) {
        Place::Composite(stage) => {
            lemma_mode(st, stage, st(ValueName::DisableSysfx), ValueName::DisableSysfx);
            let l = as_list(st(ValueName::Composite(stage)))->0;
            let x = if n == ValueName::Composite(stage) {
                Some(ValueView::List(l.push(apo_clsid())))
            } else {
                st(n)
            };
            lemma_mode(st, stage, x, n);
        },
        Place::Single(slot) => {
            let x = if n == ValueName::Single(slot) {
                Some(ValueView::Text(apo_clsid()))
            } else if n == ValueName::Backup(slot) {
                st(ValueName::Single(slot))
            } else {
                st(n)
            };
            match slot {
                Slot::Sfx => {
                    lemma_mode(st, Stage::Sfx, st(ValueName::DisableSysfx), ValueName::DisableSysfx);
                    lemma_mode(st, Stage::Sfx, x, n);
                },
                Slot::Mfx => {
                    lemma_mode(st, Stage::Mfx, st(ValueName::DisableSysfx), ValueName::DisableSysfx);
                    lemma_mode(st, Stage::Mfx, x, n);
                },
                Slot::Efx => {
                    lemma_mode(st, Stage::Efx, st(ValueName::DisableSysfx), ValueName::DisableSysfx);
                    lemma_mode(st, Stage::Efx, x, n);
                },
                _ => {},
            }
        },
        Place::Fresh => {
            let x = if n == ValueName::Single(Slot::Sfx) {
                Some(ValueView::Text(apo_clsid()))
            } else {
                st(n)
            };
            lemma_mode(st, Stage::Sfx, st(ValueName::DisableSysfx), ValueName::DisableSysfx);
            lemma_mode(st, Stage::Sfx, x, n);
        },
    }
}

/// Enabling the APO on an endpoint and taking it off again leaves every value as it
/// was, where the values are of the forms that come back.
pub proof fn law_disable_undoes_enable(st: State, n: ValueName)
    requires
        clean(st),
        restorable(st),
    ensures
        (after(enabled(st), strip_plan(enabled(st))))(n) == st(n),
{
    let f = enabled(st);
    law_strip(f, n);
    lemma_enabled(st, n);
    lemma_ours();
    match n {
        ValueName::Single(slot) => {
            lemma_enabled(st, ValueName::Backup(slot));
        },
        ValueName::Composite(stage) => {
            assert(!value_ours(st(ValueName::Composite(stage))));
            match st(n) {
                Some(ValueView::List(l)) => {
                    lemma_without_none(l);
                    lemma_without_added(l);
                },
                _ => {},
            }
        },
        ValueName::Modes(stage) => {
            lemma_enabled(st, ValueName::ModesCreated(stage));
            lemma_enabled(st, ValueName::ModesBackup(stage));
        },
        ValueName::DisableSysfx => {
            lemma_enabled(st, ValueName::SysfxBackup);
        },
        _ => {},
    }
}

/// Taking the APO off an endpoint where it is not changes nothing.
pub proof fn law_strip_keeps_clean(st: State, n: ValueName)
    requires
        clean(st),
    ensures
        (after(st, strip_plan(st)))(n) == st(n),
{
    law_strip(st, n);
    match n {
        ValueName::Composite(stage) => {
            assert(!value_ours(st(ValueName::Composite(stage))));
            match st(n) {
                Some(ValueView::List(l)) => {
                    lemma_without_none(l);
                },
                _ => {},
            }
        },
        ValueName::Modes(stage) => {
            assert(st(ValueName::ModesCreated(stage)) is None);
            assert(st(ValueName::ModesBackup(stage)) is None);
        },
        ValueName::Backup(slot) => {
            assert(st(ValueName::Backup(slot)) is None);
        },
        ValueName::ModesCreated(stage) => {
            assert(st(ValueName::ModesCreated(stage)) is None);
        },
        ValueName::ModesBackup(stage) => {
            assert(st(ValueName::ModesBackup(stage)) is None);
        },
        _ => {},
    }
}

} // verus!
