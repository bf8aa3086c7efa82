//! File operations and the installation plan that collects them.
use vstd::prelude::*;
use crate::condition::{composite_holds, EvalContext, EvalContextView, Evaluate};
use crate::config::{item_ref, ConditionalPattern, FileItem, FileList, Group, ModuleConfig};
use crate::installer::layout::{get_group, group_at};
use crate::installer::selection::sel_view;
use crate::sorting::{lemma_stably_sorted_elements, stable_sort, stably_sorted, strict_total_order};

verus! {

/// A planned file operation: copy source to destination with priority.
#[derive(Debug, Clone, PartialEq, Eq)]
pub struct FileOperation {
    pub source: String,
    pub destination: String,
    pub is_folder: bool,
    pub priority: i32,
}

/// The resolved installation plan after all user selections.
#[derive(Debug, Clone)]
pub struct InstallPlan {
    /// File operations sorted by priority (lower first, higher overwrites).
    pub operations: Vec<FileOperation>,
}

impl FileOperation {
    /// Where the operation writes, relative to the destination root: its
    /// destination, or its source path when the destination is empty.
    pub fn target_path(&self) -> (r: &str)
        ensures
            r@ == if self.destination@.len() == 0 {
                self.source@
            } else {
                self.destination@
            },
    {
        if self.destination.as_str().is_empty() {
            self.source.as_str()
        } else {
            self.destination.as_str()
        }
    }
}

/// The operation of a file list item.
pub open spec fn op_of(item: FileItem) -> FileOperation {
    FileOperation {
        source: item_ref(item).source,
        destination: item_ref(item).destination,
        is_folder: item is Folder,
        priority: item_ref(item).priority,
    }
}

/// The operations of a file list, in order.
pub open spec fn list_ops(fl: FileList) -> Seq<FileOperation> {
    fl.items@.map_values(|it: FileItem| op_of(it))
}

/// The operations of the required install files.
pub open spec fn required_ops(config: ModuleConfig) -> Seq<FileOperation> {
    match config.required_install_files {
        Some(fl) => list_ops(fl),
        None => Seq::empty(),
    }
}

/// The operations of a plugin's files, if it has any.
pub open spec fn plugin_ops(p: crate::config::Plugin) -> Seq<FileOperation> {
    match p.files {
        Some(fl) => list_ops(fl),
        None => Seq::empty(),
    }
}

/// The operations of the selected plugins of a group, in selection order;
/// indices past the plugin list contribute nothing.
pub open spec fn group_selection_ops(g: Group, sel: Seq<usize>) -> Seq<FileOperation>
    decreases sel.len(),
{
    if sel.len() == 0 {
        Seq::empty()
    } else {
        let prev = group_selection_ops(g, sel.drop_last());
        let idx = sel.last();
        if idx < g.plugins.plugins@.len() {
            prev + plugin_ops(g.plugins.plugins@[idx as int])
        } else {
            prev
        }
    }
}

/// The operations of all selections, in selection order; selections of a
/// group that does not exist contribute nothing.
pub open spec fn selection_ops(config: ModuleConfig, sels: Seq<((usize, usize), Seq<usize>)>) -> Seq<
    FileOperation,
>
    decreases sels.len(),
{
    if sels.len() == 0 {
        Seq::empty()
    } else {
        let prev = selection_ops(config, sels.drop_last());
        let key = sels.last().0;
        match group_at(config, key.0 as int, key.1 as int) {
            Some(g) => prev + group_selection_ops(g, sels.last().1),
            None => prev,
        }
    }
}

/// The operations of the conditional patterns whose dependencies hold.
pub open spec fn pattern_ops(pats: Seq<ConditionalPattern>, ctx: EvalContextView) -> Seq<FileOperation>
    decreases pats.len(),
{
    if pats.len() == 0 {
        Seq::empty()
    } else {
        let prev = pattern_ops(pats.drop_last(), ctx);
        if composite_holds(pats.last().dependencies, ctx) {
            prev + list_ops(pats.last().files)
        } else {
            prev
        }
    }
}

pub open spec fn conditional_ops(config: ModuleConfig, ctx: EvalContextView) -> Seq<FileOperation> {
    match config.conditional_file_installs {
        Some(c) => pattern_ops(c.patterns.patterns@, ctx),
        None => Seq::empty(),
    }
}

/// The operations of a plan before ordering: required files, then the
/// files of selected plugins, then (when asked) the conditional installs
/// whose patterns hold.
pub open spec fn planned_ops(
    config: ModuleConfig,
    ctx: EvalContextView,
    sels: Seq<((usize, usize), Seq<usize>)>,
    include_conditional: bool,
) -> Seq<FileOperation> {
    required_ops(config) + selection_ops(config, sels) + if include_conditional {
        conditional_ops(config, ctx)
    } else {
        Seq::empty()
    }
}

pub open spec fn priority_key() -> spec_fn(FileOperation) -> i32 {
    |op: FileOperation| op.priority
}

pub open spec fn priority_less() -> spec_fn(i32, i32) -> bool {
    |a: i32, b: i32| a < b
}

/// The operations of a file list.
pub fn files_to_ops(files: &FileList) -> (r: Vec<FileOperation>)
    ensures
        r@ == list_ops(*files),
{
    let mut out: Vec<FileOperation> = Vec::new();
    let mut i: usize = 0;
    while i < files.items.len()
        invariant
            i <= files.items@.len(),
            out@ == files.items@.take(i as int).map_values(|it: FileItem| op_of(it)),
        decreases files.items@.len() - i,
    {
        let item = &files.items[i];
        let r = item.file_ref();
        let op = FileOperation {
            source: r.source.clone(),
            destination: r.destination.clone(),
            is_folder: item.is_folder(),
            priority: r.priority,
        };
        assert(op == op_of(*item));
        out.push(op);
        i += 1;
        assert(out@ =~= files.items@.take(i as int).map_values(|it: FileItem| op_of(it)));
    }
    assert(files.items@.take(files.items@.len() as int) =~= files.items@);
    out
}

fn plugin_ops_of(p: &crate::config::Plugin) -> (r: Vec<FileOperation>)
    ensures
        r@ == plugin_ops(*p),
{
    match &p.files {
        Some(fl) => files_to_ops(fl),
        None => Vec::new(),
    }
}

/// Sorts operations by priority, lower first, keeping the order of equal
/// priorities.
fn sort_by_priority(ops: Vec<FileOperation>) -> (r: Vec<FileOperation>)
    ensures
        stably_sorted(r@, ops@, priority_key(), priority_less()),
{
    assert(strict_total_order(priority_less()));
    let precedes = |a: &FileOperation, b: &FileOperation| -> (r: bool)
        ensures
            r == (a.priority < b.priority),
        { a.priority < b.priority };
    stable_sort::<FileOperation, i32, _>(ops, &precedes, Ghost(priority_key()), Ghost(priority_less()))
}

/// The operations of a plan, ordered by priority (stable).
pub fn collect_operations(
    config: &ModuleConfig,
    ctx: &EvalContext,
    sels: &Vec<((usize, usize), Vec<usize>)>,
    include_conditional: bool,
) -> (r: Vec<FileOperation>)
    ensures
        stably_sorted(
            r@,
            planned_ops(*config, ctx@, sel_view(sels@), include_conditional),
            priority_key(),
            priority_less(),
        ),
{
    // 1. Required install files (always installed)
    let mut ops: Vec<FileOperation> = match &config.required_install_files {
        Some(files) => files_to_ops(files),
        None => Vec::new(),
    };
    let ghost req = ops@;
    // 2. Files from selected plugins
    let mut k: usize = 0;
    while k < sels.len()
        invariant
            k <= sels@.len(),
            ops@ == req + selection_ops(*config, sel_view(sels@).take(k as int)),
        decreases sels@.len() - k,
    {
        let ghost before = ops@;
        let key = sels[k].0;
        let selected = &sels[k].1;
        assert(sel_view(sels@).take(k + 1).drop_last() =~= sel_view(sels@).take(k as int));
        assert(sel_view(sels@).take(k + 1).last() == (key, selected@));
        match get_group(config, key.0, key.1) {
            Some(group) => {
                let mut j: usize = 0;
                while j < selected.len()
                    invariant
                        group_at(*config, key.0 as int, key.1 as int) == Some(*group),
                        j <= selected@.len(),
                        ops@ == before + group_selection_ops(*group, selected@.take(j as int)),
                    decreases selected@.len() - j,
                {
                    let idx = selected[j];
                    let ghost mid = ops@;
                    assert(selected@.take(j + 1).drop_last() =~= selected@.take(j as int));
                    if idx < group.plugins.plugins.len() {
                        let mut more = plugin_ops_of(&group.plugins.plugins[idx]);
                        ops.append(&mut more);
                    }
                    j += 1;
                    assert(ops@ =~= before + group_selection_ops(*group, selected@.take(j as int)));
                }
                assert(selected@.take(selected@.len() as int) =~= selected@);
            },
            None => {},
        }
        k += 1;
        assert(ops@ =~= req + selection_ops(*config, sel_view(sels@).take(k as int)));
    }
    assert(sel_view(sels@).take(sels@.len() as int) =~= sel_view(sels@));
    let ghost with_sel = ops@;
    // 3. Conditional file installs (patterns evaluated against final flags)
    if include_conditional {
        if let Some(cfi) = &config.conditional_file_installs {
            let pats = &cfi.patterns.patterns;
            let mut p: usize = 0;
            while p < pats.len()
                invariant
                    p <= pats@.len(),
                    ops@ == with_sel + pattern_ops(pats@.take(p as int), ctx@),
                decreases pats@.len() - p,
            {
                assert(pats@.take(p + 1).drop_last() =~= pats@.take(p as int));
                if pats[p].dependencies.evaluate(ctx) {
                    let mut more = files_to_ops(&pats[p].files);
                    ops.append(&mut more);
                }
                p += 1;
                assert(ops@ =~= with_sel + pattern_ops(pats@.take(p as int), ctx@));
            }
            assert(pats@.take(pats@.len() as int) =~= pats@);
        }
    }
    assert(ops@ =~= planned_ops(*config, ctx@, sel_view(sels@), include_conditional));
    sort_by_priority(ops)
}

/// The conditional patterns of a configuration (none without
/// `conditionalFileInstalls`).
pub open spec fn cond_patterns(config: ModuleConfig) -> Seq<ConditionalPattern> {
    match config.conditional_file_installs {
        Some(c) => c.patterns.patterns@,
        None => Seq::empty(),
    }
}

/// How many files the patterns whose dependencies hold name together.
pub open spec fn holding_file_count(pats: Seq<ConditionalPattern>, ctx: EvalContextView) -> nat
    decreases pats.len(),
{
    if pats.len() == 0 {
        0
    } else {
        holding_file_count(pats.drop_last(), ctx) + if composite_holds(pats.last().dependencies, ctx) {
            pats.last().files.items@.len()
        } else {
            0
        }
    }
}

/// The conditional operations are those of the files of the patterns whose
/// dependencies hold: every file of every such pattern is among them, each
/// of them is a file of such a pattern, and there are as many as those
/// patterns have files together.
pub proof fn lemma_pattern_ops_holding(pats: Seq<ConditionalPattern>, ctx: EvalContextView)
    ensures
        forall|i: int, j: int|
            #![trigger pats[i].files.items@[j]]
            0 <= i < pats.len() && composite_holds(pats[i].dependencies, ctx) && 0 <= j
                < pats[i].files.items@.len() ==> pattern_ops(pats, ctx).contains(
                op_of(pats[i].files.items@[j]),
            ),
        forall|op: FileOperation|
            #[trigger] pattern_ops(pats, ctx).contains(op) ==> exists|i: int, j: int|
                #![trigger pats[i].files.items@[j]]
                0 <= i < pats.len() && composite_holds(pats[i].dependencies, ctx) && 0 <= j
                    < pats[i].files.items@.len() && op == op_of(pats[i].files.items@[j]),
        pattern_ops(pats, ctx).len() == holding_file_count(pats, ctx),
    decreases pats.len(),
{
    if pats.len() > 0 {
        let init = pats.drop_last();
        let last = pats.last();
        let n = pats.len() - 1;
        lemma_pattern_ops_holding(init, ctx);
        let prev = pattern_ops(init, ctx);
        let ops = pattern_ops(pats, ctx);
        let extra = if composite_holds(last.dependencies, ctx) {
            list_ops(last.files)
        } else {
            Seq::empty()
        };
        assert(ops =~= prev + extra);
        assert forall|i: int, j: int|
            #![trigger pats[i].files.items@[j]]
            0 <= i < pats.len() && composite_holds(pats[i].dependencies, ctx) && 0 <= j
                < pats[i].files.items@.len() implies ops.contains(op_of(pats[i].files.items@[j])) by {
            if i < n {
                assert(init[i] == pats[i]);
                assert(init[i].files.items@[j] == pats[i].files.items@[j]);
                let k = choose|k: int| 0 <= k < prev.len() && prev[k] == op_of(init[i].files.items@[j]);
                assert(ops[k] == prev[k]);
            } else {
                assert(ops[prev.len() + j] == extra[j]);
            }
        }
        assert forall|op: FileOperation| #[trigger] ops.contains(op) implies exists|i: int, j: int|
            #![trigger pats[i].files.items@[j]]
            0 <= i < pats.len() && composite_holds(pats[i].dependencies, ctx) && 0 <= j
                < pats[i].files.items@.len() && op == op_of(pats[i].files.items@[j]) by {
            let k = choose|k: int| 0 <= k < ops.len() && ops[k] == op;
            if k < prev.len() {
                assert(prev[k] == ops[k]);
                assert(prev.contains(op));
                let (i, j) = choose|i: int, j: int|
                    #![trigger init[i].files.items@[j]]
                    0 <= i < init.len() && composite_holds(init[i].dependencies, ctx) && 0 <= j
                        < init[i].files.items@.len() && op == op_of(init[i].files.items@[j]);
                assert(init[i] == pats[i]);
                assert(pats[i].files.items@[j] == init[i].files.items@[j]);
            } else {
                assert(pats[n] == last);
                assert(ops[k] == extra[k - prev.len()]);
                assert(pats[n].files.items@[k - prev.len()] == last.files.items@[k - prev.len()]);
            }
        }
        assert(ops == pattern_ops(pats, ctx));
    } else {
        assert(pattern_ops(pats, ctx).len() == 0);
    }
}

/// A plan with conditional installs holds every file of every conditional
/// pattern whose dependencies hold, and has as many operations as the
/// required files, the selected plugins' files and those patterns' files
/// together.
pub proof fn lemma_plan_includes_holding_patterns(
    config: ModuleConfig,
    ctx: EvalContextView,
    sels: Seq<((usize, usize), Seq<usize>)>,
    r: Seq<FileOperation>,
)
    requires
        stably_sorted(r, planned_ops(config, ctx, sels, true), priority_key(), priority_less()),
    ensures
        forall|i: int, j: int|
            #![trigger cond_patterns(config)[i].files.items@[j]]
            0 <= i < cond_patterns(config).len() && composite_holds(
                cond_patterns(config)[i].dependencies,
                ctx,
            ) && 0 <= j < cond_patterns(config)[i].files.items@.len() ==> r.contains(
                op_of(cond_patterns(config)[i].files.items@[j]),
            ),
        r.len() == required_ops(config).len() + selection_ops(config, sels).len()
            + holding_file_count(cond_patterns(config), ctx),
{
    let pats = cond_patterns(config);
    let planned = planned_ops(config, ctx, sels, true);
    let front = required_ops(config) + selection_ops(config, sels);
    lemma_pattern_ops_holding(pats, ctx);
    lemma_stably_sorted_elements(r, planned, priority_key(), priority_less());
    assert(conditional_ops(config, ctx) == pattern_ops(pats, ctx));
    assert(planned =~= front + pattern_ops(pats, ctx));
    assert forall|i: int, j: int|
        #![trigger pats[i].files.items@[j]]
        0 <= i < pats.len() && composite_holds(pats[i].dependencies, ctx) && 0 <= j
            < pats[i].files.items@.len() implies r.contains(op_of(pats[i].files.items@[j])) by {
        let op = op_of(pats[i].files.items@[j]);
        let k = choose|k: int| 0 <= k < pattern_ops(pats, ctx).len() && pattern_ops(pats, ctx)[k] == op;
        assert(planned[front.len() + k] == op);
        assert(planned.contains(op));
    }
}

} // verus!
