//! Navigation through the steps, groups and plugins of a configuration,
//! step visibility, and the application of sort orders.
use vstd::prelude::*;
use crate::condition::{composite_holds, EvalContext, EvalContextView, Evaluate};
use crate::config::{Group, GroupList, InstallStep, InstallSteps, ModuleConfig, Plugin, SortOrder};
use crate::sorting::{
    ascending, descending, lemma_stably_sorted_elements, name_key, sort_by_name, sorted_by, stably_sorted,
    Named,
};

verus! {

/// The install steps of a configuration (none when it has no
/// `installSteps`).
pub open spec fn steps_of(config: ModuleConfig) -> Seq<InstallStep> {
    match config.install_steps {
        Some(s) => s.steps@,
        None => Seq::empty(),
    }
}

/// The groups of a step (none when it has no `optionalFileGroups`).
pub open spec fn groups_of(step: InstallStep) -> Seq<Group> {
    match step.optional_file_groups {
        Some(g) => g.groups@,
        None => Seq::empty(),
    }
}

pub open spec fn step_at(config: ModuleConfig, s: int) -> Option<InstallStep> {
    if 0 <= s < steps_of(config).len() {
        Some(steps_of(config)[s])
    } else {
        None
    }
}

/// The group at (step, group) indices, if both exist.
pub open spec fn group_at(config: ModuleConfig, s: int, g: int) -> Option<Group> {
    match step_at(config, s) {
        Some(step) => if 0 <= g < groups_of(step).len() {
            Some(groups_of(step)[g])
        } else {
            None
        },
        None => None,
    }
}

/// The plugin at (step, group, plugin) indices, if all exist.
pub open spec fn plugin_at(config: ModuleConfig, s: int, g: int, p: int) -> Option<Plugin> {
    match group_at(config, s, g) {
        Some(group) => if 0 <= p < group.plugins.plugins.len() {
            Some(group.plugins.plugins@[p])
        } else {
            None
        },
        None => None,
    }
}

/// A step is visible when it has no visibility condition or the condition
/// holds.
pub open spec fn step_visible(step: InstallStep, ctx: EvalContextView) -> bool {
    match step.visible {
        Some(v) => composite_holds(v, ctx),
        None => true,
    }
}

/// The indices of the visible steps among the first `n`.
pub open spec fn visible_upto(steps: Seq<InstallStep>, ctx: EvalContextView, n: int) -> Seq<usize>
    decreases n,
{
    if n <= 0 {
        Seq::empty()
    } else {
        let prev = visible_upto(steps, ctx, n - 1);
        if step_visible(steps[n - 1], ctx) {
            prev.push((n - 1) as usize)
        } else {
            prev
        }
    }
}

/// The indices of the visible steps, in order.
pub open spec fn visible_indices(config: ModuleConfig, ctx: EvalContextView) -> Seq<usize> {
    visible_upto(steps_of(config), ctx, steps_of(config).len() as int)
}

/// The step at an index, if it exists.
pub fn get_step(config: &ModuleConfig, s: usize) -> (r: Option<&InstallStep>)
    ensures
        match r {
            Some(st) => step_at(*config, s as int) == Some(*st),
            None => step_at(*config, s as int) is None,
        },
{
    match &config.install_steps {
        Some(steps) => if s < steps.steps.len() {
            Some(&steps.steps[s])
        } else {
            None
        },
        None => None,
    }
}

/// The group at (step, group) indices, if both exist.
pub fn get_group(config: &ModuleConfig, s: usize, g: usize) -> (r: Option<&Group>)
    ensures
        match r {
            Some(gr) => group_at(*config, s as int, g as int) == Some(*gr),
            None => group_at(*config, s as int, g as int) is None,
        },
{
    match get_step(config, s) {
        Some(step) => match &step.optional_file_groups {
            Some(groups) => if g < groups.groups.len() {
                Some(&groups.groups[g])
            } else {
                None
            },
            None => None,
        },
        None => None,
    }
}

/// The plugin at (step, group, plugin) indices, if all exist.
pub fn get_plugin(config: &ModuleConfig, s: usize, g: usize, p: usize) -> (r: Option<&Plugin>)
    ensures
        match r {
            Some(pl) => plugin_at(*config, s as int, g as int, p as int) == Some(*pl),
            None => plugin_at(*config, s as int, g as int, p as int) is None,
        },
{
    match get_group(config, s, g) {
        Some(group) => if p < group.plugins.plugins.len() {
            Some(&group.plugins.plugins[p])
        } else {
            None
        },
        None => None,
    }
}

/// Whether a step is visible in a context.
pub fn is_step_visible(step: &InstallStep, ctx: &EvalContext) -> (b: bool)
    ensures
        b == step_visible(*step, ctx@),
{
    match &step.visible {
        Some(v) => v.evaluate(ctx),
        None => true,
    }
}

/// The visible steps with their indices, in order.
pub fn visible_steps_of<'a>(config: &'a ModuleConfig, ctx: &EvalContext) -> (r: Vec<(usize, &'a InstallStep)>)
    ensures
        r@.len() == visible_indices(*config, ctx@).len(),
        forall|i: int|
            0 <= i < r@.len() ==> (#[trigger] r@[i]).0 == visible_indices(*config, ctx@)[i]
                && step_at(*config, r@[i].0 as int) == Some(*r@[i].1),
{
    let mut out: Vec<(usize, &'a InstallStep)> = Vec::new();
    match &config.install_steps {
        Some(steps) => {
            let ghost all = steps.steps@;
            let mut i: usize = 0;
            while i < steps.steps.len()
                invariant
                    config.install_steps == Some(*steps),
                    all == steps.steps@,
                    i <= all.len(),
                    out@.len() == visible_upto(all, ctx@, i as int).len(),
                    forall|k: int|
                        0 <= k < out@.len() ==> (#[trigger] out@[k]).0 == visible_upto(
                            all,
                            ctx@,
                            i as int,
                        )[k] && out@[k].0 < all.len() && all[out@[k].0 as int] == *out@[k].1,
                decreases all.len() - i,
            {
                let step = &steps.steps[i];
                if is_step_visible(step, ctx) {
                    out.push((i, step));
                }
                i += 1;
            }
        },
        None => {},
    }
    out
}

/// `out` is `inp` ordered as `order` asks: sorted stably by name for
/// `Ascending` and `Descending`, unchanged (document order) otherwise.
pub open spec fn order_applied<T: Named>(out: Seq<T>, inp: Seq<T>, order: Option<SortOrder>) -> bool {
    match order {
        Some(SortOrder::Ascending) => stably_sorted(out, inp, name_key::<T>(), ascending()),
        Some(SortOrder::Descending) => stably_sorted(out, inp, name_key::<T>(), descending()),
        _ => out == inp,
    }
}

/// Apply `SortOrder` to items by name.
pub fn apply_sort_order<T: Named>(items: &mut Vec<T>, order: Option<SortOrder>)
    ensures
        order_applied(final(items)@, old(items)@, order),
{
    let descending_order = match order {
        Some(SortOrder::Ascending) => false,
        Some(SortOrder::Descending) => true,
        _ => {
            return ;
        },
    };
    let mut taken: Vec<T> = Vec::new();
    std::mem::swap(items, &mut taken);
    let sorted = sort_by_name(taken, descending_order);
    *items = sorted;
}

/// A group whose plugins are ordered as the group's plugin list asks.
pub open spec fn group_ordered(new: Group, old: Group) -> bool {
    &&& new.name == old.name
    &&& new.group_type == old.group_type
    &&& new.plugins.order == old.plugins.order
    &&& order_applied(new.plugins.plugins@, old.plugins.plugins@, old.plugins.order)
}

/// Groups ordered as `order` asks, each with its plugins ordered.
pub open spec fn groups_ordered(new: Seq<Group>, old: Seq<Group>, order: Option<SortOrder>) -> bool {
    exists|mid: Seq<Group>|
        {
            &&& mid.len() == old.len()
            &&& forall|i: int| 0 <= i < old.len() ==> group_ordered(#[trigger] mid[i], old[i])
            &&& order_applied(new, mid, order)
        }
}

/// A step whose groups (and their plugins) are ordered.
pub open spec fn step_ordered(new: InstallStep, old: InstallStep) -> bool {
    &&& new.name == old.name
    &&& new.visible == old.visible
    &&& match (new.optional_file_groups, old.optional_file_groups) {
        (None, None) => true,
        (Some(ng), Some(og)) => ng.order == og.order && groups_ordered(ng.groups@, og.groups@, og.order),
        _ => false,
    }
}

/// Steps ordered as `order` asks, each with its groups ordered.
pub open spec fn steps_ordered(new: Seq<InstallStep>, old: Seq<InstallStep>, order: Option<SortOrder>) -> bool {
    exists|mid: Seq<InstallStep>|
        {
            &&& mid.len() == old.len()
            &&& forall|i: int| 0 <= i < old.len() ==> step_ordered(#[trigger] mid[i], old[i])
            &&& order_applied(new, mid, order)
        }
}

/// `new` is `old` with all steps, groups and plugins ordered according to
/// their `order` attributes; nothing else differs.
pub open spec fn sort_orders_applied(new: ModuleConfig, old: ModuleConfig) -> bool {
    &&& new.module_name == old.module_name
    &&& new.module_image == old.module_image
    &&& new.module_dependencies == old.module_dependencies
    &&& new.required_install_files == old.required_install_files
    &&& new.conditional_file_installs == old.conditional_file_installs
    &&& match (new.install_steps, old.install_steps) {
        (None, None) => true,
        (Some(ns), Some(os)) => ns.order == os.order && steps_ordered(ns.steps@, os.steps@, os.order),
        _ => false,
    }
}

/// Ordering keeps exactly the items it was given: as many, and the same
/// ones.
pub proof fn lemma_order_applied_elements<T: Named>(out: Seq<T>, inp: Seq<T>, order: Option<SortOrder>)
    requires
        order_applied(out, inp, order),
    ensures
        out.len() == inp.len(),
        forall|x: T| #[trigger] out.contains(x) <==> inp.contains(x),
{
    match order {
        Some(SortOrder::Ascending) => {
            lemma_stably_sorted_elements(out, inp, name_key::<T>(), ascending());
        },
        Some(SortOrder::Descending) => {
            lemma_stably_sorted_elements(out, inp, name_key::<T>(), descending());
        },
        _ => {},
    }
}

/// Once sort orders are applied, every group's plugins are in the order
/// that the group's plugin list asks for: sorted by name, ascending or
/// descending, when it asks for that. And the group is a group of the
/// original configuration with the same name, type and order, holding the
/// same plugins (in the same order when no sorting is asked for).
pub proof fn lemma_group_plugins_ordered(new: ModuleConfig, old: ModuleConfig, s: int, g: int)
    requires
        sort_orders_applied(new, old),
        group_at(new, s, g) is Some,
    ensures
        ({
            let grp = group_at(new, s, g)->0;
            let ps = grp.plugins.plugins@;
            &&& grp.plugins.order == Some(SortOrder::Ascending) ==> sorted_by(
                ps,
                name_key::<Plugin>(),
                ascending(),
            )
            &&& grp.plugins.order == Some(SortOrder::Descending) ==> sorted_by(
                ps,
                name_key::<Plugin>(),
                descending(),
            )
            &&& exists|s2: int, g2: int|
                #[trigger] group_at(old, s2, g2) matches Some(og) && {
                    &&& og.name == grp.name
                    &&& og.group_type == grp.group_type
                    &&& og.plugins.order == grp.plugins.order
                    &&& og.plugins.plugins@.len() == ps.len()
                    &&& forall|x: Plugin| #[trigger] ps.contains(x) <==> og.plugins.plugins@.contains(x)
                    &&& (grp.plugins.order != Some(SortOrder::Ascending) && grp.plugins.order
                        != Some(SortOrder::Descending)) ==> og.plugins.plugins@ == ps
                }
        }),
{
    let ns = new.install_steps->0;
    let os = old.install_steps->0;
    let smid = choose|mid: Seq<InstallStep>|
        {
            &&& mid.len() == os.steps@.len()
            &&& forall|i: int| 0 <= i < os.steps@.len() ==> step_ordered(#[trigger] mid[i], os.steps@[i])
            &&& order_applied(ns.steps@, mid, os.order)
        };
    lemma_order_applied_elements(ns.steps@, smid, os.order);
    let step = ns.steps@[s];
    assert(ns.steps@.contains(step));
    let k = choose|k: int| 0 <= k < smid.len() && smid[k] == step;
    assert(step_ordered(smid[k], os.steps@[k]));
    let ostep = os.steps@[k];
    let ng = step.optional_file_groups->0;
    let og = ostep.optional_file_groups->0;
    let gmid = choose|mid: Seq<Group>|
        {
            &&& mid.len() == og.groups@.len()
            &&& forall|i: int| 0 <= i < og.groups@.len() ==> group_ordered(#[trigger] mid[i], og.groups@[i])
            &&& order_applied(ng.groups@, mid, og.order)
        };
    lemma_order_applied_elements(ng.groups@, gmid, og.order);
    let grp = ng.groups@[g];
    assert(ng.groups@.contains(grp));
    let k2 = choose|k2: int| 0 <= k2 < gmid.len() && gmid[k2] == grp;
    assert(group_ordered(gmid[k2], og.groups@[k2]));
    let ogrp = og.groups@[k2];
    assert(group_at(old, k, k2) == Some(ogrp));
    assert(group_at(new, s, g) == Some(grp));
    lemma_order_applied_elements(grp.plugins.plugins@, ogrp.plugins.plugins@, ogrp.plugins.order);
}

fn order_group(group: Group) -> (r: Group)
    ensures
        group_ordered(r, group),
{
    let mut g = group;
    let order = g.plugins.order;
    apply_sort_order(&mut g.plugins.plugins, order);
    g
}

fn order_groups(groups: Vec<Group>, order: Option<SortOrder>) -> (r: Vec<Group>)
    ensures
        groups_ordered(r@, groups@, order),
{
    let ghost old_groups = groups@;
    let mut rest = groups;
    let mut mid: Vec<Group> = Vec::new();
    while rest.len() > 0
        invariant
            mid@.len() + rest@.len() == old_groups.len(),
            rest@ == old_groups.skip(mid@.len() as int),
            forall|i: int| 0 <= i < mid@.len() ==> group_ordered(#[trigger] mid@[i], old_groups[i]),
        decreases rest@.len(),
    {
        let ghost k = mid@.len();
        let g = rest.remove(0);
        assert(g == old_groups[k as int]);
        mid.push(order_group(g));
        assert(rest@ =~= old_groups.skip(mid@.len() as int));
    }
    let ghost mid_view = mid@;
    let mut out = mid;
    apply_sort_order(&mut out, order);
    assert(groups_ordered(out@, old_groups, order)) by {
        assert(forall|i: int| 0 <= i < old_groups.len() ==> group_ordered(#[trigger] mid_view[i], old_groups[i]));
    }
    out
}

fn order_step(step: InstallStep) -> (r: InstallStep)
    ensures
        step_ordered(r, step),
{
    let InstallStep { name, visible, optional_file_groups } = step;
    let groups = match optional_file_groups {
        Some(gl) => {
            let GroupList { order, groups } = gl;
            Some(GroupList { order, groups: order_groups(groups, order) })
        },
        None => None,
    };
    InstallStep { name, visible, optional_file_groups: groups }
}

/// Sort all steps, groups, and plugins according to their `order`
/// attributes.
pub fn apply_sort_orders(config: ModuleConfig) -> (r: ModuleConfig)
    ensures
        sort_orders_applied(r, config),
{
    let ModuleConfig {
        module_name,
        module_image,
        module_dependencies,
        required_install_files,
        install_steps,
        conditional_file_installs,
    } = config;
    let install_steps = match install_steps {
        Some(is) => {
            let InstallSteps { order, steps } = is;
            let ghost old_steps = steps@;
            let mut rest = steps;
            let mut mid: Vec<InstallStep> = Vec::new();
            while rest.len() > 0
                invariant
                    mid@.len() + rest@.len() == old_steps.len(),
                    rest@ == old_steps.skip(mid@.len() as int),
                    forall|i: int|
                        0 <= i < mid@.len() ==> step_ordered(#[trigger] mid@[i], old_steps[i]),
                decreases rest@.len(),
            {
                let ghost k = mid@.len();
                let s = rest.remove(0);
                assert(s == old_steps[k as int]);
                mid.push(order_step(s));
                assert(rest@ =~= old_steps.skip(mid@.len() as int));
            }
            let ghost mid_view = mid@;
            let mut out = mid;
            apply_sort_order(&mut out, order);
            assert(steps_ordered(out@, old_steps, order)) by {
                assert(forall|i: int|
                    0 <= i < old_steps.len() ==> step_ordered(#[trigger] mid_view[i], old_steps[i]));
            }
            Some(InstallSteps { order, steps: out })
        },
        None => None,
    };
    ModuleConfig {
        module_name,
        module_image,
        module_dependencies,
        required_install_files,
        install_steps,
        conditional_file_installs,
    }
}

} // verus!
