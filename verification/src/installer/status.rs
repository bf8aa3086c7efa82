//! Progress of the wizard: which groups of the visible steps have valid
//! selections, and validation hints for the groups of a step.
use vstd::prelude::*;
use crate::assoc::{lemma_lookup_absent, lemma_lookup_first, lookup};
use crate::condition::{EvalContext, EvalContextView};
use crate::config::{plugin_type_of, Group, GroupType, InstallStep, ModuleConfig, PluginType};
use crate::installer::layout::{
    get_step, group_at, groups_of, is_step_visible, step_at, step_visible, steps_of, visible_upto,
};
use crate::installer::selection::{check_selection, sel_view, selection_check};
use crate::text::{decimal_string, push_decimal};

verus! {

/// Overall wizard completion status.
#[derive(Debug, Clone, PartialEq, Eq)]
pub struct CompletionStatus {
    pub total_steps: usize,
    pub visible_steps: usize,
    pub total_groups: usize,
    pub satisfied_groups: usize,
}

/// Detailed validation hint for UI display.
#[derive(Debug, Clone, PartialEq, Eq)]
pub enum ValidationHint {
    NeedExactly { group: String, required: usize, current: usize },
    NeedAtLeast { group: String, required: usize, current: usize },
    ExceedsMax { group: String, max: usize, current: usize },
    NotUsableSelected { group: String, plugin: String },
}

/// The plugins selected for a (step, group) key; none when it has no
/// selection.
pub open spec fn selection_of(sels: Seq<((usize, usize), Seq<usize>)>, key: (usize, usize)) -> Seq<usize> {
    match lookup(sels, key) {
        Some(v) => v,
        None => Seq::empty(),
    }
}

/// The (step, group) slots of a step.
pub open spec fn step_slots(si: int, step: InstallStep) -> Seq<(usize, usize)> {
    Seq::new(groups_of(step).len(), |g: int| (si as usize, g as usize))
}

/// The group slots of the visible steps among the first `n`, in order.
pub open spec fn slots_upto(steps: Seq<InstallStep>, ctx: EvalContextView, n: int) -> Seq<(usize, usize)>
    decreases n,
{
    if n <= 0 {
        Seq::empty()
    } else {
        let prev = slots_upto(steps, ctx, n - 1);
        if step_visible(steps[n - 1], ctx) {
            prev + step_slots(n - 1, steps[n - 1])
        } else {
            prev
        }
    }
}

/// The groups of all visible steps, as (step, group) slots in order.
pub open spec fn group_slots(config: ModuleConfig, ctx: EvalContextView) -> Seq<(usize, usize)> {
    slots_upto(steps_of(config), ctx, steps_of(config).len() as int)
}

/// A slot whose group's selection passes validation.
pub open spec fn slot_satisfied(
    config: ModuleConfig,
    sels: Seq<((usize, usize), Seq<usize>)>,
    slot: (usize, usize),
) -> bool {
    match group_at(config, slot.0 as int, slot.1 as int) {
        Some(g) => selection_check(g, selection_of(sels, slot)) is Ok,
        None => false,
    }
}

/// The number of satisfied slots.
pub open spec fn count_satisfied(
    config: ModuleConfig,
    sels: Seq<((usize, usize), Seq<usize>)>,
    slots: Seq<(usize, usize)>,
) -> nat
    decreases slots.len(),
{
    if slots.len() == 0 {
        0
    } else {
        count_satisfied(config, sels, slots.drop_last()) + if slot_satisfied(
            config,
            sels,
            slots.last(),
        ) {
            1nat
        } else {
            0nat
        }
    }
}

/// The slots that are not satisfied, in order.
pub open spec fn unsatisfied(
    config: ModuleConfig,
    sels: Seq<((usize, usize), Seq<usize>)>,
    slots: Seq<(usize, usize)>,
) -> Seq<(usize, usize)>
    decreases slots.len(),
{
    if slots.len() == 0 {
        Seq::empty()
    } else {
        let prev = unsatisfied(config, sels, slots.drop_last());
        if slot_satisfied(config, sels, slots.last()) {
            prev
        } else {
            prev.push(slots.last())
        }
    }
}

/// Every slot is either satisfied or missing.
pub proof fn lemma_satisfied_plus_missing(
    config: ModuleConfig,
    sels: Seq<((usize, usize), Seq<usize>)>,
    slots: Seq<(usize, usize)>,
)
    ensures
        count_satisfied(config, sels, slots) + unsatisfied(config, sels, slots).len() == slots.len(),
    decreases slots.len(),
{
    if slots.len() > 0 {
        lemma_satisfied_plus_missing(config, sels, slots.drop_last());
    }
}

/// The hint, if any, about the count of a group's selection.
pub open spec fn count_hint(g: Group, count: usize) -> Seq<ValidationHint> {
    let max = g.plugins.plugins@.len() as usize;
    match g.group_type {
        GroupType::SelectExactlyOne => if count != 1 {
            seq![ValidationHint::NeedExactly { group: g.name, required: 1, current: count }]
        } else {
            Seq::empty()
        },
        GroupType::SelectAtMostOne => if count > 1 {
            seq![ValidationHint::ExceedsMax { group: g.name, max: 1, current: count }]
        } else {
            Seq::empty()
        },
        GroupType::SelectAtLeastOne => if count < 1 {
            seq![ValidationHint::NeedAtLeast { group: g.name, required: 1, current: count }]
        } else {
            Seq::empty()
        },
        GroupType::SelectAll => if count != max {
            seq![ValidationHint::NeedExactly { group: g.name, required: max, current: count }]
        } else {
            Seq::empty()
        },
        GroupType::SelectAny => Seq::empty(),
    }
}

/// A hint for every selected plugin whose type in the context is
/// `NotUsable`, in selection order.
pub open spec fn not_usable_hints(g: Group, sel: Seq<usize>, ctx: EvalContextView) -> Seq<ValidationHint>
    decreases sel.len(),
{
    if sel.len() == 0 {
        Seq::empty()
    } else {
        let prev = not_usable_hints(g, sel.drop_last(), ctx);
        let idx = sel.last();
        if idx < g.plugins.plugins@.len() && plugin_type_of(
            g.plugins.plugins@[idx as int],
            Some(ctx),
        ) == PluginType::NotUsable {
            prev.push(
                ValidationHint::NotUsableSelected {
                    group: g.name,
                    plugin: g.plugins.plugins@[idx as int].name,
                },
            )
        } else {
            prev
        }
    }
}

/// The hints of the first `n` groups of step `si`.
pub open spec fn hints_upto(
    groups: Seq<Group>,
    si: usize,
    sels: Seq<((usize, usize), Seq<usize>)>,
    ctx: EvalContextView,
    n: int,
) -> Seq<ValidationHint>
    decreases n,
{
    if n <= 0 {
        Seq::empty()
    } else {
        let g = groups[n - 1];
        let sel = selection_of(sels, (si, (n - 1) as usize));
        hints_upto(groups, si, sels, ctx, n - 1) + count_hint(g, sel.len() as usize)
            + not_usable_hints(g, sel, ctx)
    }
}

/// The hints of all groups of a step, visible or not; none for a step that
/// does not exist.
pub open spec fn step_hints(
    config: ModuleConfig,
    ctx: EvalContextView,
    sels: Seq<((usize, usize), Seq<usize>)>,
    si: usize,
) -> Seq<ValidationHint> {
    match step_at(config, si as int) {
        Some(step) => hints_upto(groups_of(step), si, sels, ctx, groups_of(step).len() as int),
        None => Seq::empty(),
    }
}

/// The selection recorded for a key (first entry).
pub fn find_selection(sels: &Vec<((usize, usize), Vec<usize>)>, key: (usize, usize)) -> (r: Option<
    &Vec<usize>,
>)
    ensures
        match r {
            Some(v) => lookup(sel_view(sels@), key) == Some(v@),
            None => lookup(sel_view(sels@), key) is None,
        },
{
    let mut i: usize = 0;
    while i < sels.len()
        invariant
            i <= sels@.len(),
            forall|j: int| 0 <= j < i ==> (#[trigger] sel_view(sels@)[j]).0 != key,
        decreases sels@.len() - i,
    {
        if sels[i].0.0 == key.0 && sels[i].0.1 == key.1 {
            proof {
                lemma_lookup_first(sel_view(sels@), key, i as int);
            }
            return Some(&sels[i].1);
        }
        i += 1;
    }
    proof {
        lemma_lookup_absent(sel_view(sels@), key);
    }
    None
}

/// Whether the selection of a slot passes validation.
fn slot_ok(config: &ModuleConfig, sels: &Vec<((usize, usize), Vec<usize>)>, group: &Group, key: (usize, usize)) -> (b: bool)
    requires
        group_at(*config, key.0 as int, key.1 as int) == Some(*group),
    ensures
        b == slot_satisfied(*config, sel_view(sels@), key),
{
    let empty: Vec<usize> = Vec::new();
    let sel = match find_selection(sels, key) {
        Some(v) => v,
        None => &empty,
    };
    assert(sel@ == selection_of(sel_view(sels@), key));
    check_selection(group, sel.as_slice()).is_ok()
}

/// The report on the group slots of the visible steps: the slots, how many
/// are satisfied, the unsatisfied ones, and how many steps are visible.
pub fn slot_report(config: &ModuleConfig, ctx: &EvalContext, sels: &Vec<((usize, usize), Vec<usize>)>) -> (r: (
    Vec<(usize, usize)>,
    usize,
    Vec<(usize, usize)>,
    usize,
))
    ensures
        r.0@ == group_slots(*config, ctx@),
        r.1 == count_satisfied(*config, sel_view(sels@), group_slots(*config, ctx@)),
        r.2@ == unsatisfied(*config, sel_view(sels@), group_slots(*config, ctx@)),
        r.3 == visible_upto(steps_of(*config), ctx@, steps_of(*config).len() as int).len(),
{
    let mut slots: Vec<(usize, usize)> = Vec::new();
    let mut satisfied: usize = 0;
    let mut missing: Vec<(usize, usize)> = Vec::new();
    let mut visible: usize = 0;
    let ghost steps = steps_of(*config);
    let ghost sv = sel_view(sels@);
    if let Some(is) = &config.install_steps {
        let n = is.steps.len();
        let mut i: usize = 0;
        while i < n
            invariant
                config.install_steps == Some(*is),
                n == steps.len(),
                steps == steps_of(*config),
                sv == sel_view(sels@),
                i <= n,
                slots@ == slots_upto(steps, ctx@, i as int),
                satisfied == count_satisfied(*config, sv, slots@),
                missing@ == unsatisfied(*config, sv, slots@),
                satisfied <= slots@.len(),
                visible == visible_upto(steps, ctx@, i as int).len(),
                visible <= i,
            decreases n - i,
        {
            let step = &is.steps[i];
            assert(step_at(*config, i as int) == Some(*step));
            let ghost before = slots@;
            if is_step_visible(step, ctx) {
                visible += 1;
                if let Some(groups) = &step.optional_file_groups {
                    let mut g: usize = 0;
                    while g < groups.groups.len()
                        invariant
                            step_at(*config, i as int) == Some(*step),
                            step.optional_file_groups == Some(*groups),
                            sv == sel_view(sels@),
                            g <= groups.groups@.len(),
                            slots@ == before + step_slots(i as int, *step).take(g as int),
                            satisfied == count_satisfied(*config, sv, slots@),
                            missing@ == unsatisfied(*config, sv, slots@),
                            satisfied <= slots@.len(),
                        decreases groups.groups@.len() - g,
                    {
                        let group = &groups.groups[g];
                        let ok = slot_ok(config, sels, group, (i, g));
                        let ghost prior = slots@;
                        slots.push((i, g));
                        assert(slots@.drop_last() == prior);
                        let total = slots.len();
                        assert(satisfied < total);
                        if ok {
                            satisfied += 1;
                        } else {
                            missing.push((i, g));
                        }
                        g += 1;
                        assert(slots@ =~= before + step_slots(i as int, *step).take(g as int));
                    }
                    assert(step_slots(i as int, *step).take(groups.groups@.len() as int)
                        =~= step_slots(i as int, *step));
                } else {
                    assert(step_slots(i as int, *step) =~= Seq::<(usize, usize)>::empty());
                    assert(before + step_slots(i as int, *step) =~= before);
                }
            }
            i += 1;
            assert(slots@ =~= slots_upto(steps, ctx@, i as int));
        }
    } else {
        assert(slots@ =~= group_slots(*config, ctx@));
    }
    (slots, satisfied, missing, visible)
}

/// The hints for a count that does not fit the group type.
fn count_hint_of(group: &Group, count: usize) -> (r: Vec<ValidationHint>)
    ensures
        r@ == count_hint(*group, count),
{
    let max = group.plugins.plugins.len();
    let mut out: Vec<ValidationHint> = Vec::new();
    match group.group_type {
        GroupType::SelectExactlyOne => if count != 1 {
            out.push(ValidationHint::NeedExactly { group: group.name.clone(), required: 1, current: count });
        },
        GroupType::SelectAtMostOne => if count > 1 {
            out.push(ValidationHint::ExceedsMax { group: group.name.clone(), max: 1, current: count });
        },
        GroupType::SelectAtLeastOne => if count < 1 {
            out.push(ValidationHint::NeedAtLeast { group: group.name.clone(), required: 1, current: count });
        },
        GroupType::SelectAll => if count != max {
            out.push(ValidationHint::NeedExactly { group: group.name.clone(), required: max, current: count });
        },
        GroupType::SelectAny => {},
    }
    assert(out@ =~= count_hint(*group, count));
    out
}

/// The hints of a step's groups, for the UI.
pub fn step_hints_of(config: &ModuleConfig, ctx: &EvalContext, sels: &Vec<((usize, usize), Vec<usize>)>, si: usize) -> (r: Vec<ValidationHint>)
    ensures
        r@ == step_hints(*config, ctx@, sel_view(sels@), si),
{
    let step = match get_step(config, si) {
        Some(s) => s,
        None => {
            return Vec::new();
        },
    };
    let mut hints: Vec<ValidationHint> = Vec::new();
    let ghost sv = sel_view(sels@);
    if let Some(groups) = &step.optional_file_groups {
        let mut g: usize = 0;
        while g < groups.groups.len()
            invariant
                step_at(*config, si as int) == Some(*step),
                step.optional_file_groups == Some(*groups),
                sv == sel_view(sels@),
                g <= groups.groups@.len(),
                hints@ == hints_upto(groups.groups@, si, sv, ctx@, g as int),
            decreases groups.groups@.len() - g,
        {
            let group = &groups.groups[g];
            let empty: Vec<usize> = Vec::new();
            let sel = match find_selection(sels, (si, g)) {
                Some(v) => v,
                None => &empty,
            };
            assert(sel@ == selection_of(sv, (si, g)));
            let mut more = count_hint_of(group, sel.len());
            hints.append(&mut more);
            let ghost base = hints@;
            // Flag NotUsable plugins that are selected
            let mut k: usize = 0;
            while k < sel.len()
                invariant
                    k <= sel@.len(),
                    hints@ == base + not_usable_hints(*group, sel@.take(k as int), ctx@),
                decreases sel@.len() - k,
            {
                let idx = sel[k];
                assert(sel@.take(k + 1).drop_last() =~= sel@.take(k as int));
                if idx < group.plugins.plugins.len() {
                    let plugin = &group.plugins.plugins[idx];
                    if plugin.plugin_type_in_context(ctx) == PluginType::NotUsable {
                        hints.push(ValidationHint::NotUsableSelected {
                            group: group.name.clone(),
                            plugin: plugin.name.clone(),
                        });
                    }
                }
                k += 1;
                assert(hints@ =~= base + not_usable_hints(*group, sel@.take(k as int), ctx@));
            }
            assert(sel@.take(sel@.len() as int) =~= sel@);
            g += 1;
            assert(hints@ =~= hints_upto(groups.groups@, si, sv, ctx@, g as int));
        }
    } else {
        assert(hints@ =~= step_hints(*config, ctx@, sv, si));
    }
    hints
}

/// The text of a validation hint.
pub open spec fn hint_text(h: ValidationHint) -> Seq<char> {
    match h {
        ValidationHint::NeedExactly { group, required, current } => group@ + ": need exactly "@
            + decimal_string(required as nat) + ", have "@ + decimal_string(current as nat)
            + " selected"@,
        ValidationHint::NeedAtLeast { group, required, current } => group@ + ": need at least "@
            + decimal_string(required as nat) + ", have "@ + decimal_string(current as nat)
            + " selected"@,
        ValidationHint::ExceedsMax { group, max, current } => group@ + ": at most "@
            + decimal_string(max as nat) + " allowed, have "@ + decimal_string(current as nat)
            + " selected"@,
        ValidationHint::NotUsableSelected { group, plugin } => group@ + ": \""@ + plugin@
            + "\" is marked as not usable"@,
    }
}

impl ValidationHint {
    /// The human-readable text of the hint.
    pub fn message(&self) -> (s: String)
        ensures
            s@ == hint_text(*self),
    {
        match self {
            ValidationHint::NeedExactly { group, required, current } => {
                let mut s = group.clone();
                s.append(": need exactly ");
                push_decimal(&mut s, *required);
                s.append(", have ");
                push_decimal(&mut s, *current);
                s.append(" selected");
                s
            },
            ValidationHint::NeedAtLeast { group, required, current } => {
                let mut s = group.clone();
                s.append(": need at least ");
                push_decimal(&mut s, *required);
                s.append(", have ");
                push_decimal(&mut s, *current);
                s.append(" selected");
                s
            },
            ValidationHint::ExceedsMax { group, max, current } => {
                let mut s = group.clone();
                s.append(": at most ");
                push_decimal(&mut s, *max);
                s.append(" allowed, have ");
                push_decimal(&mut s, *current);
                s.append(" selected");
                s
            },
            ValidationHint::NotUsableSelected { group, plugin } => {
                let mut s = group.clone();
                s.append(": \"");
                s.append(plugin.as_str());
                s.append("\" is marked as not usable");
                s
            },
        }
    }
}

} // verus!
