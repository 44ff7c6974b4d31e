//! Registering the audio processing object (APO) on an endpoint, and taking it off
//! again.
//!
//! An endpoint names its effects in the values of a registry key. What is written
//! there is decided here, from a snapshot of the values; a plan is a list of
//! operations, to be carried out in order.

use vstd::prelude::*;
use vstd::string::*;

use crate::text::{alike, alike_chars, chars_of, copy_list, holds, holds_chars, join_lines, lower, on_lines, push_text, texts, to_lower, trim, trimmed};

verus! {

/// The stages at which an endpoint processes audio: per stream, per mode, and for
/// the endpoint as a whole.
#[derive(Clone, Copy, Debug, PartialEq, Eq, Structural)]
pub enum Stage {
    Sfx,
    Mfx,
    Efx,
}

/// The slots that name a single effect: those of the stages, and the older local and
/// global ones.
#[derive(Clone, Copy, Debug, PartialEq, Eq, Structural)]
pub enum Slot {
    Sfx,
    Mfx,
    Efx,
    Lfx,
    Gfx,
}

/// The values that matter here.
#[derive(Clone, Copy, Debug, PartialEq, Eq, Structural)]
pub enum ValueName {
    /// The single effect of a slot.
    Single(Slot),
    /// The list of effects of a stage.
    Composite(Stage),
    /// The effect that was displaced from a slot.
    Backup(Slot),
    /// The processing modes that a stage supports.
    Modes(Stage),
    /// Set where the list of modes of a stage was not there before.
    ModesCreated(Stage),
    /// The modes that a stage supported before.
    ModesBackup(Stage),
    /// 1 where the user turned all enhancements off.
    DisableSysfx,
    /// 1 where the user had turned all enhancements off before.
    SysfxBackup,
}

/// A value of the registry.
#[derive(Debug)]
pub enum RegValue {
    /// A text.
    Text(String),
    /// A text with references to environment variables.
    Expand(String),
    /// A list of texts.
    List(Vec<String>),
    /// A number of 32 bits.
    Number(u32),
    /// A value of any other type.
    Other,
}

/// What a value holds.
pub enum ValueView {
    Text(Seq<char>),
    Expand(Seq<char>),
    List(Seq<Seq<char>>),
    Number(u32),
    Other,
}

impl View for RegValue {
    type V = ValueView;

    open spec fn view(&self) -> ValueView {
        match self {
            RegValue::Text(s) => ValueView::Text(s@),
            RegValue::Expand(s) => ValueView::Expand(s@),
            RegValue::List(l) => ValueView::List(texts(l@)),
            RegValue::Number(n) => ValueView::Number(*n),
            RegValue::Other => ValueView::Other,
        }
    }
}

/// A snapshot of the values of the key of an endpoint.
pub struct FxKey {
    pub values: Vec<(ValueName, RegValue)>,
}

/// The values of a key: what each name stands for.
pub type State = spec_fn(ValueName) -> Option<ValueView>;

/// The value under a name.
pub open spec fn find_value(values: Seq<(ValueName, RegValue)>, name: ValueName) -> Option<ValueView>
    decreases values.len(),
{
    if values.len() == 0 {
        None
    } else if values[0].0 == name {
        Some(values[0].1@)
    } else {
        find_value(values.drop_first(), name)
    }
}

impl FxKey {
    pub open spec fn state(&self) -> State {
        |name: ValueName| find_value(self.values@, name)
    }

    /// The value under a name.
    pub(crate) fn get(&self, name: ValueName) -> (r: Option<&RegValue>)
        ensures
            (self.state())(name) == match r {
                Some(v) => Some(v@),
                None => None,
            },
    {
        let ghost all = self.values@;
        assert(all.skip(0) =~= all);
        for i in 0..self.values.len()
            invariant
                all == self.values@,
                find_value(all, name) == find_value(all.skip(i as int), name),
        {
            if self.values[i].0 == name {
                return Some(&self.values[i].1);
            }
            assert(all.skip(i as int).drop_first() =~= all.skip(i + 1));
        }
        assert(all.skip(all.len() as int) =~= seq![]);
        None
    }
}

/// A value read as one text; the items of a list stand on lines of their own.
pub open spec fn as_text(v: Option<ValueView>) -> Option<Seq<char>> {
    match v {
        Some(ValueView::Text(s)) => Some(s),
        Some(ValueView::Expand(s)) => Some(s),
        Some(ValueView::List(l)) => Some(on_lines(l)),
        _ => None,
    }
}

/// A value read as a list.
pub open spec fn as_list(v: Option<ValueView>) -> Option<Seq<Seq<char>>> {
    match v {
        Some(ValueView::List(l)) => Some(l),
        _ => None,
    }
}

/// A value read as a number.
pub open spec fn as_number(v: Option<ValueView>) -> Option<u32> {
    match v {
        Some(ValueView::Number(n)) => Some(n),
        _ => None,
    }
}

/// The class identifier of the APO.
pub open spec fn apo_clsid() -> Seq<char> {
    "{7f4a1e02-9c3b-4d5a-8e21-ad7c0c0ffee1}"@
}

/// The class identifier of the APO, without its braces.
pub open spec fn apo_clsid_body() -> Seq<char> {
    "7f4a1e02-9c3b-4d5a-8e21-ad7c0c0ffee1"@
}

/// The default signal processing mode, which every shared stream uses.
pub open spec fn mode_default() -> Seq<char> {
    "{C18E2F7E-933D-4965-B7D1-1EEF228D2AF3}"@
}

/// A text with its ASCII letters in lower case.
pub open spec fn lowered(s: Seq<char>) -> Seq<char> {
    Seq::new(s.len(), |i: int| lower(s[i]))
}

/// The text names the APO.
pub open spec fn is_ours(s: Seq<char>) -> bool {
    holds(lowered(s), apo_clsid_body())
}

/// A text in the list names the APO.
pub open spec fn any_ours(l: Seq<Seq<char>>) -> bool {
    exists|i: int| 0 <= i < l.len() && is_ours(#[trigger] l[i])
}

/// The texts that do not name the APO.
pub open spec fn without_ours(l: Seq<Seq<char>>) -> Seq<Seq<char>>
    decreases l.len(),
{
    if l.len() == 0 {
        seq![]
    } else if is_ours(l.last()) {
        without_ours(l.drop_last())
    } else {
        without_ours(l.drop_last()).push(l.last())
    }
}

/// The list names the default mode.
pub open spec fn has_default(l: Seq<Seq<char>>) -> bool {
    exists|i: int| 0 <= i < l.len() && alike(#[trigger] l[i], mode_default())
}

/// The text in lower case.
pub(crate) fn lowered_chars(s: &str) -> (r: Vec<char>)
    ensures
        r@ == lowered(s@),
{
    let v: Vec<char> = chars_of(s);
    let mut r: Vec<char> = Vec::new();
    for i in 0..v.len()
        invariant
            v@ == s@,
            r@ =~= lowered(s@).take(i as int),
    {
        r.push(to_lower(v[i]));
    }
    assert(r@ =~= lowered(s@));
    r
}

/// Whether a text names the APO, in any case. Only the whole identifier counts.
pub fn contains_us(value: &str) -> (r: bool)
    ensures
        r == is_ours(value@),
{
    holds_chars(&lowered_chars(value), &chars_of("7f4a1e02-9c3b-4d5a-8e21-ad7c0c0ffee1"))
}

fn list_has_us(l: &Vec<String>) -> (r: bool)
    ensures
        r == any_ours(texts(l@)),
{
    for i in 0..l.len()
        invariant
            forall|j: int| 0 <= j < i ==> !is_ours(#[trigger] texts(l@)[j]),
    {
        if contains_us(&l[i]) {
            assert(is_ours(texts(l@)[i as int]));
            return true;
        }
        assert(!is_ours(texts(l@)[i as int]));
    }
    false
}

fn list_has_default(l: &Vec<String>) -> (r: bool)
    ensures
        r == has_default(texts(l@)),
{
    for i in 0..l.len()
        invariant
            forall|j: int| 0 <= j < i ==> !alike(#[trigger] texts(l@)[j], mode_default()),
    {
        if alike_chars(&chars_of(&l[i]), "{C18E2F7E-933D-4965-B7D1-1EEF228D2AF3}") {
            assert(alike(texts(l@)[i as int], mode_default()));
            return true;
        }
        assert(!alike(texts(l@)[i as int], mode_default()));
    }
    false
}

/// The texts that do not name the APO.
fn others(l: &Vec<String>) -> (r: Vec<String>)
    ensures
        texts(r@) == without_ours(texts(l@)),
{
    let ghost all = texts(l@);
    let mut r: Vec<String> = Vec::new();
    assert(texts(r@) =~= without_ours(all.take(0)));
    for i in 0..l.len()
        invariant
            all == texts(l@),
            texts(r@) == without_ours(all.take(i as int)),
    {
        let ghost before = texts(r@);
        assert(all.take(i + 1).drop_last() =~= all.take(i as int));
        if !contains_us(&l[i]) {
            r.push(l[i].clone());
            assert(texts(r@) =~= before.push(l@[i as int]@));
        }
    }
    assert(all.take(all.len() as int) =~= all);
    r
}

/// The value read as one text.
pub(crate) fn read_text(v: Option<&RegValue>) -> (r: Option<String>)
    ensures
        (match r {
            Some(s) => Some(s@),
            None => None,
        }) == as_text(
            match v {
                Some(x) => Some(x@),
                None => None,
            },
        ),
{
    match v {
        Some(RegValue::Text(s)) => Some(s.clone()),
        Some(RegValue::Expand(s)) => Some(s.clone()),
        Some(RegValue::List(l)) => Some(join_lines(l)),
        _ => None,
    }
}

/// An operation on the values of a key.
pub enum RegOp {
    /// Set a value. Where that fails, the plan fails with this text, followed by a
    /// colon and the reason; without a text it goes on.
    Write(ValueName, RegValue, Option<String>),
    /// Delete a value. Where that fails, the plan goes on.
    Remove(ValueName),
}

/// What an operation says.
pub enum OpView {
    Write(ValueName, ValueView, Option<Seq<char>>),
    Remove(ValueName),
}

impl View for RegOp {
    type V = OpView;

    open spec fn view(&self) -> OpView {
        match self {
            RegOp::Write(n, v, e) => OpView::Write(
                *n,
                v@,
                match e {
                    Some(s) => Some(s@),
                    None => None,
                },
            ),
            RegOp::Remove(n) => OpView::Remove(*n),
        }
    }
}

/// What some operations say.
pub open spec fn ops(v: Seq<RegOp>) -> Seq<OpView> {
    Seq::new(v.len(), |i: int| v[i]@)
}

/// What an operation makes of the value under a name.
pub open spec fn op_value(v: Option<ValueView>, op: OpView, name: ValueName) -> Option<ValueView> {
    match op {
        OpView::Write(n, x, _) => if n == name {
            Some(x)
        } else {
            v
        },
        OpView::Remove(n) => if n == name {
            None
        } else {
            v
        },
    }
}

/// What some operations make of the value under a name.
pub open spec fn ops_value(
    v: Option<ValueView>,
    plan: Seq<OpView>,
    name: ValueName,
) -> Option<ValueView>
    decreases plan.len(),
{
    if plan.len() == 0 {
        v
    } else {
        op_value(ops_value(v, plan.drop_last(), name), plan.last(), name)
    }
}

/// The values of a key once a plan has been carried out.
pub open spec fn after(st: State, plan: Seq<OpView>) -> State {
    |name: ValueName| ops_value(st(name), plan, name)
}

/// Appends an operation to a plan.
fn plan_op(plan: &mut Vec<RegOp>, op: RegOp)
    ensures
        ops(final(plan)@) == ops(old(plan)@) + seq![op@],
{
    let ghost before = ops(plan@);
    plan.push(op);
    assert(ops(plan@) =~= before + seq![op@]);
}

/// The number of a slot.
pub open spec fn slot_number(slot: Slot) -> Seq<char> {
    match slot {
        Slot::Sfx => "5"@,
        Slot::Mfx => "6"@,
        Slot::Efx => "7"@,
        Slot::Lfx => "1"@,
        Slot::Gfx => "2"@,
    }
}

/// The number of the single effect of a stage.
pub open spec fn stage_number(stage: Stage) -> Seq<char> {
    match stage {
        Stage::Sfx => "5"@,
        Stage::Mfx => "6"@,
        Stage::Efx => "7"@,
    }
}

/// The number of the list of effects of a stage.
pub open spec fn composite_number(stage: Stage) -> Seq<char> {
    match stage {
        Stage::Sfx => "13"@,
        Stage::Mfx => "14"@,
        Stage::Efx => "15"@,
    }
}

/// The name under which a value stands in the registry.
pub open spec fn value_text(name: ValueName) -> Seq<char> {
    match name {
        ValueName::Single(s) => "{d04e05a6-594b-4fb6-a80d-01af5eed7d1d},"@ + slot_number(s),
        ValueName::Composite(st) => "{d04e05a6-594b-4fb6-a80d-01af5eed7d1d},"@ + composite_number(
            st,
        ),
        ValueName::Backup(s) => "ADtune.backup."@ + slot_number(s),
        ValueName::Modes(st) => "{d3993a3f-99c2-4402-b5ec-a92a0367664b},"@ + stage_number(st),
        ValueName::ModesCreated(st) => "ADtune.backup.modescreated."@ + stage_number(st),
        ValueName::ModesBackup(st) => "ADtune.backup.modes."@ + stage_number(st),
        ValueName::DisableSysfx => "{1da5d803-d492-4edd-8c23-e0c0ffee7f0e},5"@,
        ValueName::SysfxBackup => "ADtune.backup.sysfx"@,
    }
}

impl Slot {
    fn number(&self) -> (r: &'static str)
        ensures
            r@ == slot_number(*self),
    {
        match self {
            Slot::Sfx => "5",
            Slot::Mfx => "6",
            Slot::Efx => "7",
            Slot::Lfx => "1",
            Slot::Gfx => "2",
        }
    }
}

impl Stage {
    fn number(&self) -> (r: &'static str)
        ensures
            r@ == stage_number(*self),
    {
        match self {
            Stage::Sfx => "5",
            Stage::Mfx => "6",
            Stage::Efx => "7",
        }
    }

    fn composite(&self) -> (r: &'static str)
        ensures
            r@ == composite_number(*self),
    {
        match self {
            Stage::Sfx => "13",
            Stage::Mfx => "14",
            Stage::Efx => "15",
        }
    }
}

impl ValueName {
    /// The name under which the value stands in the registry. The audio engine
    /// passes over names that are not property keys, so backups do nothing there.
    pub fn text(&self) -> (r: String)
        ensures
            r@ == value_text(*self),
    {
        match self {
            ValueName::Single(s) => "{d04e05a6-594b-4fb6-a80d-01af5eed7d1d},".to_owned().concat(
                s.number(),
            ),
            ValueName::Composite(st) => "{d04e05a6-594b-4fb6-a80d-01af5eed7d1d},".to_owned().concat(
                st.composite(),
            ),
            ValueName::Backup(s) => "ADtune.backup.".to_owned().concat(s.number()),
            ValueName::Modes(st) => "{d3993a3f-99c2-4402-b5ec-a92a0367664b},".to_owned().concat(
                st.number(),
            ),
            ValueName::ModesCreated(st) => "ADtune.backup.modescreated.".to_owned().concat(
                st.number(),
            ),
            ValueName::ModesBackup(st) => "ADtune.backup.modes.".to_owned().concat(st.number()),
            ValueName::DisableSysfx => "{1da5d803-d492-4edd-8c23-e0c0ffee7f0e},5".to_owned(),
            ValueName::SysfxBackup => "ADtune.backup.sysfx".to_owned(),
        }
    }
}

/// Takes the APO out of a slot: what it displaced comes back, or the value goes.
pub open spec fn strip_single(st: State, slot: Slot) -> Seq<OpView> {
    let name = ValueName::Single(slot);
    let backup = ValueName::Backup(slot);
    let restore = match as_text(st(name)) {
        Some(v) => if is_ours(v) {
            match as_text(st(backup)) {
                Some(original) => seq![OpView::Write(name, ValueView::Text(original), None)],
                None => seq![OpView::Remove(name)],
            }
        } else {
            seq![]
        },
        None => seq![],
    };
    restore + seq![OpView::Remove(backup)]
}

/// Takes the APO out of the list of a stage; a list that is then empty goes.
pub open spec fn strip_composite(st: State, stage: Stage) -> Seq<OpView> {
    let name = ValueName::Composite(stage);
    match st(name) {
        Some(ValueView::List(l)) => {
            let rest = without_ours(l);
            if rest.len() == l.len() {
                seq![]
            } else if rest.len() == 0 {
                seq![OpView::Remove(name)]
            } else {
                seq![OpView::Write(name, ValueView::List(rest), None)]
            }
        },
        v => match as_text(v) {
            Some(s) => if is_ours(s) {
                seq![OpView::Remove(name)]
            } else {
                seq![]
            },
            None => seq![],
        },
    }
}

/// Undoes the declaration of a mode: a list that was made goes, one that was
/// extended comes back.
pub open spec fn strip_modes(st: State, stage: Stage) -> Seq<OpView> {
    let name = ValueName::Modes(stage);
    let created = ValueName::ModesCreated(stage);
    let backup = ValueName::ModesBackup(stage);
    let restore = if as_number(st(created)) is Some {
        seq![OpView::Remove(name)]
    } else {
        match as_list(st(backup)) {
            Some(original) => seq![OpView::Write(name, ValueView::List(original), None)],
            None => seq![],
        }
    };
    restore + seq![OpView::Remove(created), OpView::Remove(backup)]
}

/// Puts back the user's choice to have no enhancements.
pub open spec fn strip_sysfx(st: State) -> Seq<OpView> {
    let restore = if as_number(st(ValueName::SysfxBackup)) == Some(1u32) {
        seq![OpView::Write(ValueName::DisableSysfx, ValueView::Number(1), None)]
    } else {
        seq![]
    };
    restore + seq![OpView::Remove(ValueName::SysfxBackup)]
}

/// Takes the APO off an endpoint.
pub open spec fn strip_plan(st: State) -> Seq<OpView> {
    strip_single(st, Slot::Sfx) + strip_single(st, Slot::Mfx) + strip_single(st, Slot::Efx)
        + strip_single(st, Slot::Lfx) + strip_single(st, Slot::Gfx) + strip_composite(
        st,
        Stage::Sfx,
    ) + strip_composite(st, Stage::Mfx) + strip_composite(st, Stage::Efx) + strip_modes(
        st,
        Stage::Sfx,
    ) + strip_modes(st, Stage::Mfx) + strip_modes(st, Stage::Efx) + strip_sysfx(st)
}

fn plan_strip_single(key: &FxKey, slot: Slot, plan: &mut Vec<RegOp>)
    ensures
        ops(final(plan)@) == ops(old(plan)@) + strip_single(key.state(), slot),
{
    let ghost before = ops(plan@);
    let name: ValueName = ValueName::Single(slot);
    let backup: ValueName = ValueName::Backup(slot);
    if let Some(v) = read_text(key.get(name)) {
        if contains_us(&v) {
            match read_text(key.get(backup)) {
                Some(original) => plan_op(
                    plan,
                    RegOp::Write(name, RegValue::Text(original), None),
                ),
                None => plan_op(plan, RegOp::Remove(name)),
            }
        }
    }
    plan_op(plan, RegOp::Remove(backup));
    assert(ops(plan@) =~= before + strip_single(key.state(), slot));
}

fn plan_strip_composite(key: &FxKey, stage: Stage, plan: &mut Vec<RegOp>)
    ensures
        ops(final(plan)@) == ops(old(plan)@) + strip_composite(key.state(), stage),
{
    let ghost before = ops(plan@);
    let name: ValueName = ValueName::Composite(stage);
    match key.get(name) {
        Some(RegValue::List(l)) => {
            let rest: Vec<String> = others(l);
            assert(texts(rest@).len() == rest@.len());
            if rest.len() != l.len() {
                if rest.len() == 0 {
                    plan_op(plan, RegOp::Remove(name));
                } else {
                    plan_op(plan, RegOp::Write(name, RegValue::List(rest), None));
                }
            }
        },
        v => {
            if let Some(s) = read_text(v) {
                if contains_us(&s) {
                    plan_op(plan, RegOp::Remove(name));
                }
            }
        },
    }
    assert(ops(plan@) =~= before + strip_composite(key.state(), stage));
}

fn plan_strip_modes(key: &FxKey, stage: Stage, plan: &mut Vec<RegOp>)
    ensures
        ops(final(plan)@) == ops(old(plan)@) + strip_modes(key.state(), stage),
{
    let ghost before = ops(plan@);
    let name: ValueName = ValueName::Modes(stage);
    let created: ValueName = ValueName::ModesCreated(stage);
    let backup: ValueName = ValueName::ModesBackup(stage);
    if let Some(RegValue::Number(_)) = key.get(created) {
        plan_op(plan, RegOp::Remove(name));
    } else if let Some(RegValue::List(original)) = key.get(backup) {
        plan_op(plan, RegOp::Write(name, RegValue::List(copy_list(original)), None));
    }
    plan_op(plan, RegOp::Remove(created));
    plan_op(plan, RegOp::Remove(backup));
    assert(ops(plan@) =~= before + strip_modes(key.state(), stage));
}

/// The plan that takes the APO off an endpoint: every slot and list is freed of it,
/// and what it displaced or changed comes back.
pub fn strip_ours(key: &FxKey) -> (plan: Vec<RegOp>)
    ensures
        ops(plan@) == strip_plan(key.state()),
{
    let mut plan: Vec<RegOp> = Vec::new();
    let ghost st = key.state();
    plan_strip_single(key, Slot::Sfx, &mut plan);
    assert(ops(plan@) =~= strip_single(st, Slot::Sfx));
    plan_strip_single(key, Slot::Mfx, &mut plan);
    plan_strip_single(key, Slot::Efx, &mut plan);
    plan_strip_single(key, Slot::Lfx, &mut plan);
    plan_strip_single(key, Slot::Gfx, &mut plan);
    plan_strip_composite(key, Stage::Sfx, &mut plan);
    plan_strip_composite(key, Stage::Mfx, &mut plan);
    plan_strip_composite(key, Stage::Efx, &mut plan);
    plan_strip_modes(key, Stage::Sfx, &mut plan);
    plan_strip_modes(key, Stage::Mfx, &mut plan);
    plan_strip_modes(key, Stage::Efx, &mut plan);
    let ghost before = ops(plan@);
    if let Some(RegValue::Number(1)) = key.get(ValueName::SysfxBackup) {
        plan_op(
            &mut plan,
            RegOp::Write(ValueName::DisableSysfx, RegValue::Number(1), None),
        );
    }
    plan_op(&mut plan, RegOp::Remove(ValueName::SysfxBackup));
    assert(ops(plan@) =~= before + strip_sysfx(st));
    plan
}

/// Where the APO is attached.
pub enum Place {
    /// To the list of a stage.
    Composite(Stage),
    /// In a slot that is in use.
    Single(Slot),
    /// In the slot of the stream stage, where the endpoint has no effects at all.
    Fresh,
}

/// The first place that is in use: stage by stage, the list before the slots.
pub open spec fn place(st: State) -> Place {
    if as_text(st(ValueName::Composite(Stage::Sfx))) is Some {
        Place::Composite(Stage::Sfx)
    } else if as_text(st(ValueName::Single(Slot::Sfx))) is Some {
        Place::Single(Slot::Sfx)
    } else if as_text(st(ValueName::Single(Slot::Lfx))) is Some {
        Place::Single(Slot::Lfx)
    } else if as_text(st(ValueName::Composite(Stage::Mfx))) is Some {
        Place::Composite(Stage::Mfx)
    } else if as_text(st(ValueName::Single(Slot::Mfx))) is Some {
        Place::Single(Slot::Mfx)
    } else if as_text(st(ValueName::Single(Slot::Gfx))) is Some {
        Place::Single(Slot::Gfx)
    } else if as_text(st(ValueName::Composite(Stage::Efx))) is Some {
        Place::Composite(Stage::Efx)
    } else if as_text(st(ValueName::Single(Slot::Efx))) is Some {
        Place::Single(Slot::Efx)
    } else {
        Place::Fresh
    }
}

/// Adds the APO to the list of a stage. A single text is made a list.
pub open spec fn join_plan(v: Option<ValueView>, stage: Stage) -> Seq<OpView> {
    let name = ValueName::Composite(stage);
    let error = Some(
        "FxProperties set-value (composite "@ + composite_number(stage) + ") failed"@,
    );
    match v {
        Some(ValueView::List(l)) => if any_ours(l) {
            seq![]
        } else {
            seq![OpView::Write(name, ValueView::List(l.push(apo_clsid())), error)]
        },
        _ => {
            let s = as_text(v)->0;
            if is_ours(s) {
                seq![]
            } else if s.len() == 0 {
                seq![OpView::Write(name, ValueView::List(seq![apo_clsid()]), error)]
            } else {
                seq![OpView::Write(name, ValueView::List(seq![s, apo_clsid()]), error)]
            }
        },
    }
}

/// Puts the APO in a slot, and what it displaces in a backup.
pub open spec fn take_plan(v: Option<ValueView>, slot: Slot) -> Seq<OpView> {
    let s = as_text(v)->0;
    let backup = OpView::Write(
        ValueName::Backup(slot),
        ValueView::Text(s),
        Some("could not preserve the existing effect in slot "@ + slot_number(slot)),
    );
    let take = OpView::Write(
        ValueName::Single(slot),
        ValueView::Text(apo_clsid()),
        Some("FxProperties set-value ("@ + slot_number(slot) + ") failed"@),
    );
    if is_ours(s) {
        seq![]
    } else if trim(s).len() > 0 {
        seq![backup, take]
    } else {
        seq![take]
    }
}

/// Declares that a stage supports the default mode. A list that is there is only
/// extended, and kept in a backup.
pub open spec fn mode_plan(v: Option<ValueView>, stage: Stage) -> Seq<OpView> {
    let name = ValueName::Modes(stage);
    let error = Some("processing-modes set-value ("@ + stage_number(stage) + ") failed"@);
    let existing = match v {
        Some(ValueView::List(l)) => Some(l),
        _ => match as_text(v) {
            Some(s) => Some(seq![s]),
            None => None,
        },
    };
    match existing {
        Some(l) => if has_default(l) {
            seq![]
        } else {
            seq![
                OpView::Write(
                    ValueName::ModesBackup(stage),
                    ValueView::List(l),
                    Some("could not back up processing modes ("@ + stage_number(stage) + ")"@),
                ),
                OpView::Write(name, ValueView::List(l.push(mode_default())), error),
            ]
        },
        None => seq![
            OpView::Write(name, ValueView::List(seq![mode_default()]), error),
            OpView::Write(ValueName::ModesCreated(stage), ValueView::Number(1), None),
        ],
    }
}

/// Attaches the APO. The slots of the stages need the mode; the older ones know
/// none.
pub open spec fn attach_plan(st: State) -> Seq<OpView> {
    match place(st) {
        Place::Composite(stage) => join_plan(st(ValueName::Composite(stage)), stage) + mode_plan(
            st(ValueName::Modes(stage)),
            stage,
        ),
        Place::Single(slot) => take_plan(st(ValueName::Single(slot)), slot) + match slot {
            Slot::Sfx => mode_plan(st(ValueName::Modes(Stage::Sfx)), Stage::Sfx),
            Slot::Mfx => mode_plan(st(ValueName::Modes(Stage::Mfx)), Stage::Mfx),
            Slot::Efx => mode_plan(st(ValueName::Modes(Stage::Efx)), Stage::Efx),
            _ => seq![],
        },
        Place::Fresh => seq![
            OpView::Write(
                ValueName::Single(Slot::Sfx),
                ValueView::Text(apo_clsid()),
                Some("FxProperties set-value (5) failed"@),
            ),
        ] + mode_plan(st(ValueName::Modes(Stage::Sfx)), Stage::Sfx),
    }
}

/// Turns enhancements on, and remembers where the user had turned them off.
pub open spec fn sysfx_plan(st: State) -> Seq<OpView> {
    let remember = if as_number(st(ValueName::DisableSysfx)) == Some(1u32) {
        seq![OpView::Write(ValueName::SysfxBackup, ValueView::Number(1), None)]
    } else {
        seq![]
    };
    remember + seq![OpView::Remove(ValueName::DisableSysfx)]
}

/// Whether a value reads as a text or a list.
fn present(v: Option<&RegValue>) -> (r: bool)
    ensures
        r == (as_text(
            match v {
                Some(x) => Some(x@),
                None => None,
            },
        ) is Some),
{
    match v {
        Some(RegValue::Text(_)) => true,
        Some(RegValue::Expand(_)) => true,
        Some(RegValue::List(_)) => true,
        _ => false,
    }
}

fn our_text() -> (r: String)
    ensures
        r@ == apo_clsid(),
{
    "{7f4a1e02-9c3b-4d5a-8e21-ad7c0c0ffee1}".to_owned()
}

fn in_brackets(start: &str, number: &str, end: &str) -> (r: String)
    ensures
        r@ == start@ + number@ + end@,
{
    start.to_owned().concat(number).concat(end)
}

/// Adds the APO to the list of a stage, which is there.
fn join_composite(key: &FxKey, stage: Stage, plan: &mut Vec<RegOp>)
    requires
        as_text((key.state())(ValueName::Composite(stage))) is Some,
    ensures
        ops(final(plan)@) == ops(old(plan)@) + join_plan(
            (key.state())(ValueName::Composite(stage)),
            stage,
        ),
{
    let ghost before = ops(plan@);
    let ghost st = key.state();
    let name: ValueName = ValueName::Composite(stage);
    let error: String = in_brackets("FxProperties set-value (composite ", stage.composite(), ") failed");
    match key.get(name) {
        Some(RegValue::List(l)) => {
            if !list_has_us(l) {
                let mut list: Vec<String> = copy_list(l);
                push_text(&mut list, our_text());
                plan_op(plan, RegOp::Write(name, RegValue::List(list), Some(error)));
            }
        },
        v => {
            if let Some(s) = read_text(v) {
                if !contains_us(&s) {
                    let mut list: Vec<String> = Vec::new();
                    assert(texts(list@) =~= seq![]);
                    if !s.as_str().is_empty() {
                        push_text(&mut list, s);
                    }
                    push_text(&mut list, our_text());
                    proof {
                        let t = as_text(st(name))->0;
                        if t.len() == 0 {
                            assert(texts(list@) =~= seq![apo_clsid()]);
                        } else {
                            assert(texts(list@) =~= seq![t, apo_clsid()]);
                        }
                    }
                    plan_op(plan, RegOp::Write(name, RegValue::List(list), Some(error)));
                }
            }
        },
    }
    assert(ops(plan@) =~= before + join_plan(st(name), stage));
}

/// Puts the APO in a slot that is in use.
fn take_legacy(key: &FxKey, slot: Slot, plan: &mut Vec<RegOp>)
    requires
        as_text((key.state())(ValueName::Single(slot))) is Some,
    ensures
        ops(final(plan)@) == ops(old(plan)@) + take_plan(
            (key.state())(ValueName::Single(slot)),
            slot,
        ),
{
    let ghost before = ops(plan@);
    let name: ValueName = ValueName::Single(slot);
    if let Some(existing) = read_text(key.get(name)) {
        if !contains_us(&existing) {
            if trimmed(&chars_of(&existing)).len() > 0 {
                plan_op(
                    plan,
                    RegOp::Write(
                        ValueName::Backup(slot),
                        RegValue::Text(existing),
                        Some(
                            "could not preserve the existing effect in slot ".to_owned().concat(
                                slot.number(),
                            ),
                        ),
                    ),
                );
            }
            plan_op(
                plan,
                RegOp::Write(
                    name,
                    RegValue::Text(our_text()),
                    Some(in_brackets("FxProperties set-value (", slot.number(), ") failed")),
                ),
            );
        }
    }
    assert(ops(plan@) =~= before + take_plan((key.state())(name), slot));
}

/// Declares that a stage supports the default mode.
fn ensure_streaming_mode(key: &FxKey, stage: Stage, plan: &mut Vec<RegOp>)
    ensures
        ops(final(plan)@) == ops(old(plan)@) + mode_plan(
            (key.state())(ValueName::Modes(stage)),
            stage,
        ),
{
    let ghost before = ops(plan@);
    let ghost v = (key.state())(ValueName::Modes(stage));
    let name: ValueName = ValueName::Modes(stage);
    let error: String = in_brackets("processing-modes set-value (", stage.number(), ") failed");
    let existing: Option<Vec<String>> = match key.get(name) {
        Some(RegValue::List(l)) => Some(copy_list(l)),
        other => match read_text(other) {
            Some(s) => {
                let mut list: Vec<String> = Vec::new();
                assert(texts(list@) =~= seq![]);
                push_text(&mut list, s);
                assert(texts(list@) =~= seq![as_text(v)->0]);
                Some(list)
            },
            None => None,
        },
    };
    match existing {
        Some(list) => {
            if !list_has_default(&list) {
                let mut extended: Vec<String> = copy_list(&list);
                push_text(&mut extended, "{C18E2F7E-933D-4965-B7D1-1EEF228D2AF3}".to_owned());
                plan_op(
                    plan,
                    RegOp::Write(
                        ValueName::ModesBackup(stage),
                        RegValue::List(list),
                        Some(in_brackets("could not back up processing modes (", stage.number(), ")")),
                    ),
                );
                plan_op(plan, RegOp::Write(name, RegValue::List(extended), Some(error)));
            }
        },
        None => {
            let mut list: Vec<String> = Vec::new();
            assert(texts(list@) =~= seq![]);
            push_text(&mut list, "{C18E2F7E-933D-4965-B7D1-1EEF228D2AF3}".to_owned());
            assert(texts(list@) =~= seq![mode_default()]);
            plan_op(plan, RegOp::Write(name, RegValue::List(list), Some(error)));
            plan_op(plan, RegOp::Write(ValueName::ModesCreated(stage), RegValue::Number(1), None));
        },
    }
    assert(ops(plan@) =~= before + mode_plan(v, stage));
}

/// The plan that attaches the APO to the first effect stage that the endpoint uses,
/// the list before the slots, and declares the default mode for it. An endpoint
/// without any effects gets a stream effect.
pub fn attach_apo(key: &FxKey) -> (plan: Vec<RegOp>)
    ensures
        ops(plan@) == attach_plan(key.state()),
{
    let mut plan: Vec<RegOp> = Vec::new();
    let ghost st = key.state();
    if present(key.get(ValueName::Composite(Stage::Sfx))) {
        join_composite(key, Stage::Sfx, &mut plan);
        ensure_streaming_mode(key, Stage::Sfx, &mut plan);
    } else if present(key.get(ValueName::Single(Slot::Sfx))) {
        take_legacy(key, Slot::Sfx, &mut plan);
        ensure_streaming_mode(key, Stage::Sfx, &mut plan);
    } else if present(key.get(ValueName::Single(Slot::Lfx))) {
        take_legacy(key, Slot::Lfx, &mut plan);
    } else if present(key.get(ValueName::Composite(Stage::Mfx))) {
        join_composite(key, Stage::Mfx, &mut plan);
        ensure_streaming_mode(key, Stage::Mfx, &mut plan);
    } else if present(key.get(ValueName::Single(Slot::Mfx))) {
        take_legacy(key, Slot::Mfx, &mut plan);
        ensure_streaming_mode(key, Stage::Mfx, &mut plan);
    } else if present(key.get(ValueName::Single(Slot::Gfx))) {
        take_legacy(key, Slot::Gfx, &mut plan);
    } else if present(key.get(ValueName::Composite(Stage::Efx))) {
        join_composite(key, Stage::Efx, &mut plan);
        ensure_streaming_mode(key, Stage::Efx, &mut plan);
    } else if present(key.get(ValueName::Single(Slot::Efx))) {
        take_legacy(key, Slot::Efx, &mut plan);
        ensure_streaming_mode(key, Stage::Efx, &mut plan);
    } else {
        plan_op(
            &mut plan,
            RegOp::Write(
                ValueName::Single(Slot::Sfx),
                RegValue::Text(our_text()),
                Some("FxProperties set-value (5) failed".to_owned()),
            ),
        );
        ensure_streaming_mode(key, Stage::Sfx, &mut plan);
    }
    assert(ops(plan@) =~= attach_plan(st));
    plan
}

/// The plan that turns enhancements on, the last step of enabling: the value goes,
/// as the system's own settings have it, and where the user had turned enhancements
/// off that is remembered.
pub fn enable_sysfx(key: &FxKey) -> (plan: Vec<RegOp>)
    ensures
        ops(plan@) == sysfx_plan(key.state()),
{
    let mut plan: Vec<RegOp> = Vec::new();
    if let Some(RegValue::Number(1)) = key.get(ValueName::DisableSysfx) {
        plan_op(&mut plan, RegOp::Write(ValueName::SysfxBackup, RegValue::Number(1), None));
    }
    plan_op(&mut plan, RegOp::Remove(ValueName::DisableSysfx));
    assert(ops(plan@) =~= sysfx_plan(key.state()));
    plan
}

/// What tells the names of values apart.
proof fn lemma_value_text(n: ValueName)
    ensures
        ({
            let s = value_text(n);
            match n {
                ValueName::Single(slot) => s.len() == 40 && s[1] == 'd' && s[2] == '0' && s[39]
                    == slot_number(slot)[0],
                ValueName::Composite(stage) => s.len() == 41 && s[40] == composite_number(stage)[1],
                ValueName::Backup(slot) => s.len() == 15 && s[14] == slot_number(slot)[0],
                ValueName::Modes(stage) => s.len() == 40 && s[1] == 'd' && s[2] == '3' && s[39]
                    == stage_number(stage)[0],
                ValueName::ModesCreated(stage) => s.len() == 28 && s[27] == stage_number(stage)[0],
                ValueName::ModesBackup(stage) => s.len() == 21 && s[20] == stage_number(stage)[0],
                ValueName::DisableSysfx => s.len() == 40 && s[1] == '1',
                ValueName::SysfxBackup => s.len() == 19,
            }
        }),
{
    lemma_numbers();
    match n {
        ValueName::Single(_) => {
            reveal_strlit("{d04e05a6-594b-4fb6-a80d-01af5eed7d1d},");
        },
        ValueName::Composite(_) => {
            reveal_strlit("{d04e05a6-594b-4fb6-a80d-01af5eed7d1d},");
        },
        ValueName::Backup(_) => {
            reveal_strlit("ADtune.backup.");
        },
        ValueName::Modes(_) => {
            reveal_strlit("{d3993a3f-99c2-4402-b5ec-a92a0367664b},");
        },
        ValueName::ModesCreated(_) => {
            reveal_strlit("ADtune.backup.modescreated.");
        },
        ValueName::ModesBackup(_) => {
            reveal_strlit("ADtune.backup.modes.");
        },
        ValueName::DisableSysfx => {
            reveal_strlit("{1da5d803-d492-4edd-8c23-e0c0ffee7f0e},5");
        },
        ValueName::SysfxBackup => {
            reveal_strlit("ADtune.backup.sysfx");
        },
    }
}

proof fn lemma_numbers()
    ensures
        "5"@ == seq!['5'],
        "6"@ == seq!['6'],
        "7"@ == seq!['7'],
        "1"@ == seq!['1'],
        "2"@ == seq!['2'],
        "13"@ == seq!['1', '3'],
        "14"@ == seq!['1', '4'],
        "15"@ == seq!['1', '5'],
{
    reveal_strlit("5");
    reveal_strlit("6");
    reveal_strlit("7");
    reveal_strlit("1");
    reveal_strlit("2");
    reveal_strlit("13");
    reveal_strlit("14");
    reveal_strlit("15");
    assert("5"@ =~= seq!['5']);
    assert("6"@ =~= seq!['6']);
    assert("7"@ =~= seq!['7']);
    assert("1"@ =~= seq!['1']);
    assert("2"@ =~= seq!['2']);
    assert("13"@ =~= seq!['1', '3']);
    assert("14"@ =~= seq!['1', '4']);
    assert("15"@ =~= seq!['1', '5']);
}

/// No two values have the same name, so that no operation on one touches another.
pub proof fn law_value_names_differ(a: ValueName, b: ValueName)
    requires
        a != b,
    ensures
        value_text(a) != value_text(b),
{
    lemma_value_text(a);
    lemma_value_text(b);
    lemma_numbers();
}

} // verus!
