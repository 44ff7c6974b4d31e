//! Registering the object on an endpoint: what becomes of the effects that are there.

use vstd::prelude::*;

use crate::state::StoredState;
use crate::text::{alike, lower};
use crate::windows::elevate::{failure, HelperRun};
use crate::windows::native::status_of;
use crate::windows::register::{
    after, as_text, is_ours, lowered, place, strip_plan, without_ours, Place, Slot, Stage, State, ValueName, ValueView, attach_plan, has_default, stage_number, OpView,
};
use crate::windows::restore::{
    clean, enabled, law_strip, lemma_attach, lemma_enabled, lemma_none, lemma_sysfx, lemma_two,
    restorable,
};
use crate::windows::setup::{class_plan, engine_plan, fx_path, KeyOpView};

verus! {

/// The identifier of the object.
pub open spec fn ours() -> Seq<char> {
    "{7f4a1e02-9c3b-4d5a-8e21-ad7c0c0ffee1}"@
}

/// Enabling displaces no effect of others: a list keeps all it holds, in order, with the object
/// behind them or not at all; a single effect stays where it is, or is kept in a backup while the
/// object has its place.
pub proof fn law_enabling_keeps_other_effects(st: State, stage: Stage, slot: Slot)
    requires
        clean(st),
        restorable(st),
    ensures
        ({
            let r = enabled(st);
            &&& r(ValueName::Composite(stage)) == st(ValueName::Composite(stage)) || (st(
                ValueName::Composite(stage),
            ) matches Some(ValueView::List(l)) && r(ValueName::Composite(stage)) == Some(
                ValueView::List(l.push(ours())),
            ))
            &&& r(ValueName::Single(slot)) == st(ValueName::Single(slot)) || (r(
                ValueName::Single(slot),
            ) == Some(ValueView::Text(ours())) && r(ValueName::Backup(slot)) == st(
                ValueName::Single(slot),
            )) || (r(ValueName::Single(slot)) == Some(ValueView::Text(ours())) && st(
                ValueName::Single(slot),
            ) is None)
        }),
{
    lemma_enabled(st, ValueName::Composite(stage));
    lemma_enabled(st, ValueName::Single(slot));
    lemma_enabled(st, ValueName::Backup(slot));
    match place(st) {
        Place::Composite(s) => {
            if s == stage {
                assert(st(ValueName::Composite(stage)) matches Some(ValueView::List(l)) && l.len() > 0);
            }
        },
        Place::Single(s) => {},
        Place::Fresh => {
            assert(st(ValueName::Single(Slot::Sfx)) is None);
        },
    }
}

/// The object goes to the first effect that is there: the stream effects before those of the mode
/// and of the endpoint, and a list before single effects. An endpoint without any gets a stream
/// effect.
pub proof fn law_place_is_the_first(st: State)
    ensures
        ({
            let sfx = as_text(st(ValueName::Composite(Stage::Sfx))) is Some;
            let s5 = as_text(st(ValueName::Single(Slot::Sfx))) is Some;
            let s1 = as_text(st(ValueName::Single(Slot::Lfx))) is Some;
            let mfx = as_text(st(ValueName::Composite(Stage::Mfx))) is Some;
            let s6 = as_text(st(ValueName::Single(Slot::Mfx))) is Some;
            let s2 = as_text(st(ValueName::Single(Slot::Gfx))) is Some;
            let efx = as_text(st(ValueName::Composite(Stage::Efx))) is Some;
            let s7 = as_text(st(ValueName::Single(Slot::Efx))) is Some;
            &&& place(st) == Place::Composite(Stage::Sfx) <==> sfx
            &&& place(st) == Place::Single(Slot::Sfx) <==> s5 && !sfx
            &&& place(st) == Place::Single(Slot::Lfx) <==> s1 && !sfx && !s5
            &&& place(st) == Place::Composite(Stage::Mfx) <==> mfx && !sfx && !s5 && !s1
            &&& place(st) == Place::Single(Slot::Mfx) <==> s6 && !mfx && !sfx && !s5 && !s1
            &&& place(st) == Place::Single(Slot::Gfx) <==> s2 && !s6 && !mfx && !sfx && !s5 && !s1
            &&& place(st) == Place::Composite(Stage::Efx) <==> efx && !s2 && !s6 && !mfx && !sfx
                && !s5 && !s1
            &&& place(st) == Place::Single(Slot::Efx) <==> s7 && !efx && !s2 && !s6 && !mfx && !sfx
                && !s5 && !s1
        }),
{
}

/// A text is ours exactly where it holds the whole identifier, in any case.
pub proof fn law_ours(s: Seq<char>)
    ensures
        is_ours(s) <==> exists|a: Seq<char>, b: Seq<char>|
            lowered(s) == #[trigger] (a + "7f4a1e02-9c3b-4d5a-8e21-ad7c0c0ffee1"@ + b),
        lowered(s).len() == s.len(),
        forall|i: int| 0 <= i < s.len() ==> #[trigger] lowered(s)[i] == lower(s[i]),
{
    crate::laws::text::law_holds(lowered(s), "7f4a1e02-9c3b-4d5a-8e21-ad7c0c0ffee1"@);
}

/// Taking the object out of a list leaves the others in order.
pub proof fn law_list_without_ours(a: Seq<Seq<char>>, b: Seq<Seq<char>>, s: Seq<char>)
    ensures
        without_ours(a + b) == without_ours(a) + without_ours(b),
        without_ours(seq![s]) == if is_ours(s) {
            Seq::<Seq<char>>::empty()
        } else {
            seq![s]
        },
    decreases b.len(),
{
    let one = seq![s];
    assert(one.drop_last() =~= Seq::<Seq<char>>::empty());
    assert(one.last() == s);
    assert(without_ours(one.drop_last()) =~= Seq::<Seq<char>>::empty());
    assert(without_ours(one) =~= if is_ours(s) {
        Seq::<Seq<char>>::empty()
    } else {
        seq![s]
    });
    if b.len() == 0 {
        assert(a + b =~= a);
        assert(without_ours(a) + without_ours(b) =~= without_ours(a));
    } else {
        law_list_without_ours(a, b.drop_last(), s);
        assert((a + b).drop_last() =~= a + b.drop_last());
        assert((a + b).last() == b.last());
        assert(without_ours(a + b) =~= without_ours(a) + without_ours(b));
    }
}

/// Stripping takes the object out of every list, and leaves what others have there; a list that
/// held nothing else goes.
pub proof fn law_strip_lists(st: State, stage: Stage, l: Seq<Seq<char>>)
    requires
        st(ValueName::Composite(stage)) == Some(ValueView::List(l)),
    ensures
        ({
            let r = (after(st, strip_plan(st)))(ValueName::Composite(stage));
            &&& without_ours(l).len() > 0 ==> r == Some(ValueView::List(without_ours(l)))
            &&& without_ours(l).len() == 0 && l.len() > 0 ==> r is None
        }),
{
    law_strip(st, ValueName::Composite(stage));
    lemma_without_len(l);
}

proof fn lemma_without_len(l: Seq<Seq<char>>)
    ensures
        without_ours(l).len() <= l.len(),
        without_ours(l).len() == l.len() ==> without_ours(l) == l,
    decreases l.len(),
{
    if l.len() > 0 {
        lemma_without_len(l.drop_last());
        if without_ours(l).len() == l.len() {
            assert(l.drop_last().push(l.last()) =~= l);
        }
    }
}

/// Stripping puts back the effect that the object had displaced, and leaves every other effect.
pub proof fn law_strip_slots(st: State, slot: Slot, s: Seq<char>)
    requires
        st(ValueName::Single(slot)) == Some(ValueView::Text(s)),
    ensures
        ({
            let r = (after(st, strip_plan(st)))(ValueName::Single(slot));
            &&& !is_ours(s) ==> r == Some(ValueView::Text(s))
            &&& is_ours(s) ==> (st(ValueName::Backup(slot)) matches Some(ValueView::Text(t)) ==> r
                == Some(ValueView::Text(t)))
            &&& is_ours(s) && st(ValueName::Backup(slot)) is None ==> r is None
            &&& (after(st, strip_plan(st)))(ValueName::Backup(slot)) is None
        }),
{
    law_strip(st, ValueName::Single(slot));
    law_strip(st, ValueName::Backup(slot));
}

/// The helper has succeeded exactly where it ended with code 0, whatever it wrote down.
pub proof fn law_helper(run: HelperRun, report: Option<Seq<char>>)
    ensures
        failure(run, report) is None <==> run == HelperRun::Ended(Some(0u32)),
{
}

/// The correction is said to reach its target where it is bypassed on purpose, or where the object
/// is registered and enhancements are on.
pub proof fn law_native_status(s: StoredState<String>, registered: bool, enhancements: bool)
    ensures
        status_of(Some(s), registered, enhancements).0 <==> s.bypassed || (registered
            && enhancements),
        !status_of(None, registered, enhancements).0,
{
}

/// The effects of an endpoint stand below the key that its last braced group names.
pub proof fn law_effects_key(a: Seq<char>, b: Seq<char>)
    requires
        forall|i: int| 0 <= i < b.len() ==> #[trigger] b[i] != '{',
    ensures
        fx_path(a + seq!['{'] + b)
            == "SOFTWARE\\Microsoft\\Windows\\CurrentVersion\\MMDevices\\Audio\\Render\\"@ + (seq!['{']
            + b) + "\\FxProperties"@,
{
    crate::laws::devices::law_key_of_an_endpoint(a, b);
}

/// The class is registered with the library that is given, for any threading, and declares the
/// one interface by which the engine drives it.
pub proof fn law_registration(dll: Seq<char>)
    ensures
        ({
            let class = "SOFTWARE\\Classes\\CLSID\\"@ + ours() + "\\InprocServer32"@;
            let engine = "SOFTWARE\\Classes\\AudioEngine\\AudioProcessingObjects\\"@ + ours();
            &&& class_plan(dll).contains(
                KeyOpView::Write(
                    class,
                    Seq::<char>::empty(),
                    ValueView::Text(dll),
                    "Failed to set InprocServer32 default value"@,
                ),
            )
            &&& class_plan(dll).contains(
                KeyOpView::Write(
                    class,
                    "ThreadingModel"@,
                    ValueView::Text("Both"@),
                    "Failed to set ThreadingModel"@,
                ),
            )
            &&& engine_plan().contains(
                KeyOpView::Write(
                    engine,
                    "APOInterface0"@,
                    ValueView::Text("{FD7F2B29-24D0-4B5C-B177-592C39F9CA10}"@),
                    "Failed to set APOInterface0"@,
                ),
            )
            &&& engine_plan().contains(
                KeyOpView::Write(
                    engine,
                    "Flags"@,
                    ValueView::Number(0xd),
                    "Failed to set Flags"@,
                ),
            )
        }),
{
    assert(class_plan(dll)[3] == class_plan(dll)[3]);
    assert(class_plan(dll).contains(class_plan(dll)[3]));
    assert(class_plan(dll).contains(class_plan(dll)[4]));
    assert(engine_plan().contains(engine_plan()[2]));
    assert(engine_plan().contains(engine_plan()[5]));
}

/// The stage at which the object is attached supports the mode of every shared stream from then
/// on, and all that it supported before.
pub proof fn law_enabling_declares_the_mode(st: State, stage: Stage)
    requires
        clean(st),
        restorable(st),
        place(st) == Place::Composite(stage) || (place(st) == Place::Single(Slot::Sfx) && stage
            == Stage::Sfx) || (place(st) == Place::Single(Slot::Mfx) && stage == Stage::Mfx) || (
        place(st) == Place::Single(Slot::Efx) && stage == Stage::Efx) || (place(st) == Place::Fresh
            && stage == Stage::Sfx),
    ensures
        ({
            let mode = "{C18E2F7E-933D-4965-B7D1-1EEF228D2AF3}"@;
            let before = st(ValueName::Modes(stage));
            let now = (enabled(st))(ValueName::Modes(stage));
            &&& before is None ==> now == Some(ValueView::List(seq![mode]))
            &&& before matches Some(ValueView::List(l)) ==> {
                let there = exists|i: int| 0 <= i < l.len() && alike(#[trigger] l[i], mode);
                &&& there ==> now == before
                &&& !there ==> now == Some(ValueView::List(l.push(mode)))
            }
        }),
{
    let n = ValueName::Modes(stage);
    let m = st(n);
    lemma_attach(st, n);
    lemma_sysfx(after(st, attach_plan(st)), n);
    let mode = "{C18E2F7E-933D-4965-B7D1-1EEF228D2AF3}"@;
    let error = Some("processing-modes set-value ("@ + stage_number(stage) + ") failed"@);
    match m {
        None => {
            lemma_two(
                m,
                OpView::Write(n, ValueView::List(seq![mode]), error),
                OpView::Write(ValueName::ModesCreated(stage), ValueView::Number(1), None),
                n,
            );
        },
        Some(ValueView::List(l)) => {
            if has_default(l) {
                lemma_none(m, n);
            } else {
                lemma_two(
                    m,
                    OpView::Write(
                        ValueName::ModesBackup(stage),
                        ValueView::List(l),
                        Some("could not back up processing modes ("@ + stage_number(stage) + ")"@),
                    ),
                    OpView::Write(n, ValueView::List(l.push(mode)), error),
                    n,
                );
            }
        },
        _ => {},
    }
}

} // verus!
