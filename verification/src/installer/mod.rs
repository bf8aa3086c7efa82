//! The installation wizard: user selections, condition flags, and the
//! resolution of the final set of file operations.
use vstd::prelude::*;
use crate::assoc::{assign, lemma_assign_absent, lemma_assign_at};
use crate::condition::{composite_holds, flags_view, EvalContext, EvalContextView, Evaluate};
use crate::config::{
    plugin_type_of, Group, GroupType, InstallStep, ModuleConfig, PluginType,
};
use crate::sorting::stably_sorted;

pub mod layout;
pub mod selection;
pub mod plan;
pub mod status;
pub mod analysis;

use layout::{
    apply_sort_orders, get_group, get_plugin, get_step, group_at, plugin_at, sort_orders_applied,
    step_at, steps_of, visible_indices, visible_steps_of,
};
use selection::{
    apply_selection_flags, check_selection, compute_defaults, default_selection, flags_after_select,
    sel_view, selection_check, SelectionError,
};
use plan::{collect_operations, planned_ops, plugin_ops, priority_key, priority_less, FileOperation, InstallPlan};
use status::{
    count_satisfied, group_slots, lemma_satisfied_plus_missing, slot_report, step_hints,
    step_hints_of, unsatisfied, CompletionStatus, ValidationHint,
};
use analysis::{
    conflict_entries, conflicts_match, find_conflicts, find_flag_impacts, flag_impacts, FileConflict,
    FlagImpact,
};

verus! {

/// Snapshot of installer state for undo support.
#[derive(Debug)]
struct SelectionSnapshot {
    selections: Vec<((usize, usize), Vec<usize>)>,
    flags: Vec<(String, String)>,
}

/// Drives the FOMOD installation process.
///
/// Tracks user selections and condition flags, then resolves the final
/// set of file operations.
#[derive(Debug)]
pub struct Installer {
    config: ModuleConfig,
    ctx: EvalContext,
    /// (step_index, group_index) -> selected plugin indices, one entry per
    /// key.
    selections: Vec<((usize, usize), Vec<usize>)>,
    /// Undo history: snapshots of (selections, flags).
    history: Vec<SelectionSnapshot>,
}

/// A saved (selections, flags) pair.
pub type Snapshot = (Seq<((usize, usize), Seq<usize>)>, Seq<(Seq<char>, Seq<char>)>);

/// The mathematical content of an `Installer`.
pub struct InstallerView {
    pub config: ModuleConfig,
    pub ctx: EvalContextView,
    pub selections: Seq<((usize, usize), Seq<usize>)>,
    pub history: Seq<Snapshot>,
}

impl View for Installer {
    type V = InstallerView;

    closed spec fn view(&self) -> InstallerView {
        InstallerView {
            config: self.config,
            ctx: self.ctx@,
            selections: sel_view(self.selections@),
            history: self.history@.map_values(
                |s: SelectionSnapshot| (sel_view(s.selections@), flags_view(s.flags@)),
            ),
        }
    }
}

/// `post` is `pre` with its selections and flags pushed on the history.
pub open spec fn checkpointed(pre: InstallerView, post: InstallerView) -> bool {
    &&& post.config == pre.config
    &&& post.ctx == pre.ctx
    &&& post.selections == pre.selections
    &&& post.history == pre.history.push((pre.selections, pre.ctx.flags))
}

/// `post` is `pre` rolled back to its last snapshot when there is one
/// (`restored`), unchanged otherwise.
pub open spec fn rolled_back(pre: InstallerView, post: InstallerView, restored: bool) -> bool {
    &&& restored == (pre.history.len() > 0)
    &&& post.config == pre.config
    &&& post.ctx.file_states == pre.ctx.file_states
    &&& post.ctx.game_version == pre.ctx.game_version
    &&& post.ctx.manager_version == pre.ctx.manager_version
    &&& if restored {
        &&& post.selections == pre.history.last().0
        &&& post.ctx.flags == pre.history.last().1
        &&& post.history == pre.history.drop_last()
    } else {
        &&& post.selections == pre.selections
        &&& post.ctx.flags == pre.ctx.flags
        &&& post.history == pre.history
    }
}

/// The module header image path, when there is an image to show.
pub open spec fn module_image_path_of(config: ModuleConfig) -> Option<Seq<char>> {
    match config.module_image {
        Some(img) => if img.show_image {
            Some(img.path@)
        } else {
            None
        },
        None => None,
    }
}

pub open spec fn opt_str_view(o: Option<&str>) -> Option<Seq<char>> {
    match o {
        Some(s) => Some(s@),
        None => None,
    }
}

/// The description of the plugin at the given indices.
pub open spec fn plugin_description_of(config: ModuleConfig, s: int, g: int, p: int) -> Option<Seq<char>> {
    match plugin_at(config, s, g, p) {
        Some(pl) => match pl.description {
            Some(d) => Some(d@),
            None => None,
        },
        None => None,
    }
}

/// The image path of the plugin at the given indices.
pub open spec fn plugin_image_path_of(config: ModuleConfig, s: int, g: int, p: int) -> Option<Seq<char>> {
    match plugin_at(config, s, g, p) {
        Some(pl) => match pl.image {
            Some(img) => Some(img.path@),
            None => None,
        },
        None => None,
    }
}

fn copy_indices(v: &Vec<usize>) -> (r: Vec<usize>)
    ensures
        r@ == v@,
{
    let mut out: Vec<usize> = Vec::new();
    let mut i: usize = 0;
    while i < v.len()
        invariant
            i <= v@.len(),
            out@ == v@.take(i as int),
        decreases v@.len() - i,
    {
        out.push(v[i]);
        i += 1;
        assert(out@ =~= v@.take(i as int));
    }
    assert(v@.take(v@.len() as int) =~= v@);
    out
}

fn copy_selections(s: &Vec<((usize, usize), Vec<usize>)>) -> (r: Vec<((usize, usize), Vec<usize>)>)
    ensures
        sel_view(r@) == sel_view(s@),
{
    let mut out: Vec<((usize, usize), Vec<usize>)> = Vec::new();
    let mut i: usize = 0;
    while i < s.len()
        invariant
            i <= s@.len(),
            sel_view(out@) == sel_view(s@).take(i as int),
        decreases s@.len() - i,
    {
        let ghost prior = out@;
        out.push((s[i].0, copy_indices(&s[i].1)));
        assert(sel_view(out@) =~= sel_view(prior).push(sel_view(s@)[i as int]));
        i += 1;
        assert(sel_view(out@) =~= sel_view(s@).take(i as int));
    }
    assert(sel_view(s@).take(s@.len() as int) =~= sel_view(s@));
    out
}

fn copy_flags(f: &Vec<(String, String)>) -> (r: Vec<(String, String)>)
    ensures
        r@ == f@,
{
    let mut out: Vec<(String, String)> = Vec::new();
    let mut i: usize = 0;
    while i < f.len()
        invariant
            i <= f@.len(),
            out@ == f@.take(i as int),
        decreases f@.len() - i,
    {
        out.push((f[i].0.clone(), f[i].1.clone()));
        i += 1;
        assert(out@ =~= f@.take(i as int));
    }
    assert(f@.take(f@.len() as int) =~= f@);
    out
}

/// Binds `key` to `indices`, replacing the entry of `key` in place or
/// appending one.
fn assign_selection(sels: &mut Vec<((usize, usize), Vec<usize>)>, key: (usize, usize), indices: Vec<usize>)
    ensures
        sel_view(final(sels)@) == assign(sel_view(old(sels)@), key, indices@),
{
    let ghost sv = sel_view(sels@);
    let mut i: usize = 0;
    while i < sels.len()
        invariant
            sv == sel_view(sels@),
            sels@ == old(sels)@,
            i <= sv.len(),
            forall|j: int| 0 <= j < i ==> (#[trigger] sv[j]).0 != key,
        decreases sv.len() - i,
    {
        if sels[i].0.0 == key.0 && sels[i].0.1 == key.1 {
            assert(sv[i as int].0 == sels@[i as int].0);
            assert(sv[i as int].0 == key);
            proof {
                lemma_assign_at(sv, key, indices@, i as int);
            }
            let ghost iv = indices@;
            sels.set(i, (key, indices));
            assert(sel_view(sels@) =~= sv.update(i as int, (key, iv)));
            return ;
        }
        i += 1;
    }
    proof {
        lemma_assign_absent(sv, key, indices@);
    }
    let ghost iv = indices@;
    sels.push((key, indices));
    assert(sel_view(sels@) =~= sv.push((key, iv)));
}

impl Installer {
    pub fn new(config: ModuleConfig) -> (r: Installer)
        ensures
            sort_orders_applied(r@.config, config),
            r@.ctx.flags.len() == 0,
            r@.ctx.file_states.len() == 0,
            r@.ctx.game_version is None,
            r@.ctx.manager_version is None,
            r@.selections.len() == 0,
            r@.history.len() == 0,
    {
        Self::with_context(config, EvalContext::new())
    }

    /// Create an installer with pre-populated game environment context.
    /// Steps, groups and plugins are ordered as their `order` attributes ask.
    pub fn with_context(config: ModuleConfig, ctx: EvalContext) -> (r: Installer)
        ensures
            sort_orders_applied(r@.config, config),
            r@.ctx == ctx@,
            r@.selections.len() == 0,
            r@.history.len() == 0,
    {
        let config = apply_sort_orders(config);
        let r = Installer { config, ctx, selections: Vec::new(), history: Vec::new() };
        assert(r@.selections.len() == 0);
        r
    }

    pub fn context(&self) -> (r: &EvalContext)
        ensures
            r@ == self@.ctx,
    {
        &self.ctx
    }

    /// Mutable access to the evaluation context; nothing else changes.
    pub fn context_mut(&mut self) -> (r: &mut EvalContext)
        ensures
            r@ == old(self)@.ctx,
            final(self)@.ctx == final(r)@,
            final(self)@.config == old(self)@.config,
            final(self)@.selections == old(self)@.selections,
            final(self)@.history == old(self)@.history,
    {
        &mut self.ctx
    }

    pub fn config(&self) -> (r: &ModuleConfig)
        ensures
            *r == self@.config,
    {
        &self.config
    }

    /// Check module-level dependencies. Returns `true` if satisfied (or if
    /// there are none).
    pub fn check_dependencies(&self) -> (b: bool)
        ensures
            b == match self@.config.module_dependencies {
                Some(d) => composite_holds(d, self@.ctx),
                None => true,
            },
    {
        match &self.config.module_dependencies {
            Some(d) => d.evaluate(&self.ctx),
            None => true,
        }
    }

    /// Get visible install steps (steps whose visibility conditions are
    /// met), with their indices.
    pub fn visible_steps(&self) -> (r: Vec<(usize, &InstallStep)>)
        ensures
            r@.len() == visible_indices(self@.config, self@.ctx).len(),
            forall|i: int|
                0 <= i < r@.len() ==> (#[trigger] r@[i]).0 == visible_indices(self@.config, self@.ctx)[i]
                    && step_at(self@.config, r@[i].0 as int) == Some(*r@[i].1),
    {
        visible_steps_of(&self.config, &self.ctx)
    }

    /// Record user selections for a group within a step.
    ///
    /// `plugin_indices` are indices into the group's plugin list. When the
    /// group exists, every flag that a plugin of the group sets is cleared,
    /// then the flags of the selected plugins are set.
    pub fn select(&mut self, step_index: usize, group_index: usize, plugin_indices: Vec<usize>)
        ensures
            final(self)@.selections == assign(
                old(self)@.selections,
                (step_index, group_index),
                plugin_indices@,
            ),
            final(self)@.ctx.flags == match group_at(
                old(self)@.config,
                step_index as int,
                group_index as int,
            ) {
                Some(g) => flags_after_select(old(self)@.ctx.flags, g, plugin_indices@),
                None => old(self)@.ctx.flags,
            },
            final(self)@.ctx.file_states == old(self)@.ctx.file_states,
            final(self)@.ctx.game_version == old(self)@.ctx.game_version,
            final(self)@.ctx.manager_version == old(self)@.ctx.manager_version,
            final(self)@.config == old(self)@.config,
            final(self)@.history == old(self)@.history,
    {
        if let Some(group) = get_group(&self.config, step_index, group_index) {
            apply_selection_flags(&mut self.ctx, group, &plugin_indices);
        }
        assign_selection(&mut self.selections, (step_index, group_index), plugin_indices);
    }

    /// Get the default selections for a group based on context-aware plugin
    /// types: `dependencyType` patterns are evaluated against `ctx`.
    pub fn default_selections_in_context(group: &Group, ctx: &EvalContext) -> (r: Vec<usize>)
        ensures
            r@ == default_selection(*group, Some(ctx@)),
    {
        compute_defaults(group, Some(ctx))
    }

    /// Get the default selections for a group based on static plugin types
    /// (the default type of a `dependencyType`, without evaluation).
    pub fn default_selections(group: &Group) -> (r: Vec<usize>)
        ensures
            r@ == default_selection(*group, None),
    {
        compute_defaults(group, None)
    }

    /// Validate selections against group type constraints.
    pub fn validate_selection(group: &Group, selected: &[usize]) -> (r: Result<(), SelectionError>)
        ensures
            r == selection_check(*group, selected@),
    {
        check_selection(group, selected)
    }

    /// Resolve the final installation plan from all selections: required
    /// files, files of selected plugins and conditional installs whose
    /// patterns hold, ordered by priority (stable).
    pub fn resolve(&self) -> (r: InstallPlan)
        ensures
            stably_sorted(
                r.operations@,
                planned_ops(self@.config, self@.ctx, self@.selections, true),
                priority_key(),
                priority_less(),
            ),
    {
        InstallPlan { operations: collect_operations(&self.config, &self.ctx, &self.selections, true) }
    }

    /// Preview the install plan based on current selections (without
    /// conditional file installs).
    pub fn preview_current(&self) -> (r: InstallPlan)
        ensures
            stably_sorted(
                r.operations@,
                planned_ops(self@.config, self@.ctx, self@.selections, false),
                priority_key(),
                priority_less(),
            ),
    {
        InstallPlan { operations: collect_operations(&self.config, &self.ctx, &self.selections, false) }
    }

    /// Get the name of a step by index.
    pub fn step_name(&self, step: usize) -> (r: Option<&str>)
        ensures
            opt_str_view(r) == match step_at(self@.config, step as int) {
                Some(s) => Some(s.name@),
                None => None,
            },
    {
        match get_step(&self.config, step) {
            Some(s) => Some(s.name.as_str()),
            None => None,
        }
    }

    /// Get the name of a group within a step.
    pub fn group_name(&self, step: usize, group: usize) -> (r: Option<&str>)
        ensures
            opt_str_view(r) == match group_at(self@.config, step as int, group as int) {
                Some(g) => Some(g.name@),
                None => None,
            },
    {
        match get_group(&self.config, step, group) {
            Some(g) => Some(g.name.as_str()),
            None => None,
        }
    }

    /// Get a plugin's description text.
    pub fn plugin_description(&self, step: usize, group: usize, plugin: usize) -> (r: Option<&str>)
        ensures
            opt_str_view(r) == plugin_description_of(
                self@.config,
                step as int,
                group as int,
                plugin as int,
            ),
    {
        match get_plugin(&self.config, step, group, plugin) {
            Some(p) => match &p.description {
                Some(d) => Some(d.as_str()),
                None => None,
            },
            None => None,
        }
    }

    /// Get a plugin's image path (relative to the mod archive root).
    pub fn plugin_image_path(&self, step: usize, group: usize, plugin: usize) -> (r: Option<&str>)
        ensures
            opt_str_view(r) == plugin_image_path_of(
                self@.config,
                step as int,
                group as int,
                plugin as int,
            ),
    {
        match get_plugin(&self.config, step, group, plugin) {
            Some(p) => match &p.image {
                Some(img) => Some(img.path.as_str()),
                None => None,
            },
            None => None,
        }
    }

    /// Get the module header image path, unless the image is not to be shown.
    pub fn module_image_path(&self) -> (r: Option<&str>)
        ensures
            opt_str_view(r) == module_image_path_of(self@.config),
    {
        match &self.config.module_image {
            Some(img) => if img.show_image {
                Some(img.path.as_str())
            } else {
                None
            },
            None => None,
        }
    }

    /// Get the resolved plugin type in the current context.
    pub fn plugin_type_at(&self, step: usize, group: usize, plugin: usize) -> (r: Option<PluginType>)
        ensures
            r == match plugin_at(self@.config, step as int, group as int, plugin as int) {
                Some(p) => Some(plugin_type_of(p, Some(self@.ctx))),
                None => None,
            },
    {
        match get_plugin(&self.config, step, group, plugin) {
            Some(p) => Some(p.plugin_type_in_context(&self.ctx)),
            None => None,
        }
    }

    /// Get the group type for a specific group.
    pub fn group_type_at(&self, step: usize, group: usize) -> (r: Option<GroupType>)
        ensures
            r == match group_at(self@.config, step as int, group as int) {
                Some(g) => Some(g.group_type),
                None => None,
            },
    {
        match get_group(&self.config, step, group) {
            Some(g) => Some(g.group_type),
            None => None,
        }
    }

    /// Preview the file operations a specific plugin would contribute.
    pub fn preview_plugin(&self, step: usize, group: usize, plugin: usize) -> (r: Vec<FileOperation>)
        ensures
            r@ == match plugin_at(self@.config, step as int, group as int, plugin as int) {
                Some(p) => plugin_ops(p),
                None => Seq::empty(),
            },
    {
        match get_plugin(&self.config, step, group, plugin) {
            Some(p) => match &p.files {
                Some(fl) => plan::files_to_ops(fl),
                None => Vec::new(),
            },
            None => Vec::new(),
        }
    }

    /// Get overall completion status of the wizard: the number of steps,
    /// of visible steps, of groups in visible steps, and of those groups
    /// whose selection is valid.
    pub fn completion_status(&self) -> (r: CompletionStatus)
        ensures
            r.total_steps == steps_of(self@.config).len(),
            r.visible_steps == visible_indices(self@.config, self@.ctx).len(),
            r.total_groups == group_slots(self@.config, self@.ctx).len(),
            r.satisfied_groups == count_satisfied(
                self@.config,
                self@.selections,
                group_slots(self@.config, self@.ctx),
            ),
    {
        let (slots, satisfied, _missing, visible) = slot_report(&self.config, &self.ctx, &self.selections);
        let total_steps = match &self.config.install_steps {
            Some(s) => s.steps.len(),
            None => 0,
        };
        CompletionStatus {
            total_steps,
            visible_steps: visible,
            total_groups: slots.len(),
            satisfied_groups: satisfied,
        }
    }

    /// Check if all groups have valid selections and installation can
    /// proceed: there is at least one group and every group is satisfied.
    pub fn is_ready_to_install(&self) -> (b: bool)
        ensures
            b == (group_slots(self@.config, self@.ctx).len() > 0 && count_satisfied(
                self@.config,
                self@.selections,
                group_slots(self@.config, self@.ctx),
            ) == group_slots(self@.config, self@.ctx).len()),
    {
        let status = self.completion_status();
        status.total_groups > 0 && status.satisfied_groups == status.total_groups
    }

    /// Return `(step_idx, group_idx)` pairs for groups of visible steps that
    /// still need user input, in order.
    pub fn missing_selections(&self) -> (r: Vec<(usize, usize)>)
        ensures
            r@ == unsatisfied(self@.config, self@.selections, group_slots(self@.config, self@.ctx)),
    {
        let (_slots, _satisfied, missing, _visible) = slot_report(&self.config, &self.ctx, &self.selections);
        missing
    }

    /// Validate all groups in a step and return detailed hints for the UI.
    pub fn validate_step(&self, step_index: usize) -> (r: Vec<ValidationHint>)
        ensures
            r@ == step_hints(self@.config, self@.ctx, self@.selections, step_index),
    {
        step_hints_of(&self.config, &self.ctx, &self.selections, step_index)
    }

    /// Detect file conflicts: destinations (compared lowercased) that more
    /// than one file of the configuration installs to.
    pub fn detect_conflicts(&self) -> (r: Vec<FileConflict>)
        ensures
            conflicts_match(r@, conflict_entries(self@.config)),
    {
        find_conflicts(&self.config)
    }

    /// Build a map of which plugins set flags that affect other steps'
    /// visibility: "selecting plugin X may show/hide step Y".
    pub fn flag_impact_map(&self) -> (r: Vec<FlagImpact>)
        ensures
            r@ == flag_impacts(self@.config),
    {
        find_flag_impacts(&self.config)
    }

    /// Save a snapshot of current selections and flags for later rollback.
    pub fn checkpoint(&mut self)
        ensures
            checkpointed(old(self)@, final(self)@),
    {
        let snapshot = SelectionSnapshot {
            selections: copy_selections(&self.selections),
            flags: copy_flags(&self.ctx.flags),
        };
        self.history.push(snapshot);
        assert(self@.history =~= old(self)@.history.push((old(self)@.selections, old(self)@.ctx.flags)));
    }

    /// Rollback to the most recent checkpoint. Returns `false` if no history.
    pub fn rollback(&mut self) -> (restored: bool)
        ensures
            rolled_back(old(self)@, final(self)@, restored),
    {
        match self.history.pop() {
            Some(snapshot) => {
                self.selections = snapshot.selections;
                self.ctx.flags = snapshot.flags;
                assert(self@.history =~= old(self)@.history.drop_last());
                true
            },
            None => false,
        }
    }

    /// Number of available undo checkpoints.
    pub fn history_len(&self) -> (n: usize)
        ensures
            n == self@.history.len(),
    {
        self.history.len()
    }

    /// Get current selections (read-only).
    pub fn selections(&self) -> (r: &Vec<((usize, usize), Vec<usize>)>)
        ensures
            sel_view(r@) == self@.selections,
    {
        &self.selections
    }
}

/// Rolling back right after a checkpoint restores the installer exactly:
/// selections, flags, the rest of the context, the configuration and the
/// history.
pub proof fn lemma_checkpoint_then_rollback(a: InstallerView, b: InstallerView, c: InstallerView, restored: bool)
    requires
        checkpointed(a, b),
        rolled_back(b, c, restored),
    ensures
        restored,
        c == a,
{
    assert(b.history.drop_last() =~= a.history);
}

/// Every group of a visible step is either satisfied or listed as missing.
pub proof fn lemma_missing_complements_satisfied(v: InstallerView)
    ensures
        count_satisfied(v.config, v.selections, group_slots(v.config, v.ctx)) + unsatisfied(
            v.config,
            v.selections,
            group_slots(v.config, v.ctx),
        ).len() == group_slots(v.config, v.ctx).len(),
{
    lemma_satisfied_plus_missing(v.config, v.selections, group_slots(v.config, v.ctx));
}

/// Installation is ready exactly when there is a group and no selection is
/// missing.
pub proof fn lemma_ready_iff_nothing_missing(v: InstallerView)
    ensures
        (group_slots(v.config, v.ctx).len() > 0 && count_satisfied(
            v.config,
            v.selections,
            group_slots(v.config, v.ctx),
        ) == group_slots(v.config, v.ctx).len()) <==> (group_slots(v.config, v.ctx).len() > 0
            && unsatisfied(v.config, v.selections, group_slots(v.config, v.ctx)).len() == 0),
{
    lemma_satisfied_plus_missing(v.config, v.selections, group_slots(v.config, v.ctx));
}

/// The preview is the plan without the conditional installs: the plan's
/// operations are those of the preview followed by the conditional ones,
/// before ordering.
pub proof fn lemma_preview_prefix_of_resolve(v: InstallerView)
    ensures
        planned_ops(v.config, v.ctx, v.selections, true) == planned_ops(
            v.config,
            v.ctx,
            v.selections,
            false,
        ) + plan::conditional_ops(v.config, v.ctx),
{
    assert(planned_ops(v.config, v.ctx, v.selections, false) =~= plan::required_ops(v.config)
        + plan::selection_ops(v.config, v.selections));
}

} // verus!
