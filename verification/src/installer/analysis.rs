//! Static analysis of a configuration: destinations that several files are
//! installed to, and plugins whose flags affect the visibility of steps.
use vstd::prelude::*;
use crate::condition::{CompositeDependency, FlagDependency};
use crate::config::{item_ref, ConditionFlag, FileItem, Group, InstallStep, ModuleConfig, Plugin};
use crate::installer::layout::{groups_of, steps_of};
use crate::installer::selection::strs_view;
use crate::text::{str_eq, to_lowercase, unicode_lowercase};

verus! {

/// A file destination that multiple sources want to write to.
#[derive(Debug, Clone, PartialEq, Eq)]
pub struct FileConflict {
    pub destination: String,
    pub sources: Vec<FileConflictSource>,
}

/// Where a conflicting file comes from.
#[derive(Debug, Clone, PartialEq, Eq)]
pub enum FileConflictSource {
    Required { source: String },
    Plugin { step: usize, group: usize, plugin: usize, plugin_name: String, source: String },
}

/// A plugin's flag-setting that affects another step's visibility.
#[derive(Debug, Clone, PartialEq, Eq)]
pub struct FlagImpact {
    pub source_step: usize,
    pub source_group: usize,
    pub source_plugin: usize,
    pub flag_name: String,
    pub affected_step: usize,
    pub affected_step_name: String,
}

/// The destination a file is compared by: its destination, or its source
/// when the destination is empty, lowercased.
pub open spec fn normalized_dest(source: Seq<char>, destination: Seq<char>) -> Seq<char> {
    if destination.len() == 0 {
        unicode_lowercase(source)
    } else {
        unicode_lowercase(destination)
    }
}

/// The lowercased destination of a file (its source when the destination
/// is empty).
pub fn normalize_dest(source: &str, destination: &str) -> (r: String)
    ensures
        r@ == normalized_dest(source@, destination@),
{
    if destination.is_empty() {
        to_lowercase(source)
    } else {
        to_lowercase(destination)
    }
}

/// A (normalized destination, source) entry.
pub type DestEntry = (Seq<char>, FileConflictSource);

pub open spec fn entries_view(s: Seq<(String, FileConflictSource)>) -> Seq<DestEntry> {
    s.map_values(|e: (String, FileConflictSource)| (e.0@, e.1))
}

pub open spec fn required_entry(item: FileItem) -> DestEntry {
    (
        normalized_dest(item_ref(item).source@, item_ref(item).destination@),
        FileConflictSource::Required { source: item_ref(item).source },
    )
}

pub open spec fn plugin_entry(si: usize, gi: usize, pi: usize, p: Plugin, item: FileItem) -> DestEntry {
    (
        normalized_dest(item_ref(item).source@, item_ref(item).destination@),
        FileConflictSource::Plugin {
            step: si,
            group: gi,
            plugin: pi,
            plugin_name: p.name,
            source: item_ref(item).source,
        },
    )
}

pub open spec fn required_entries(config: ModuleConfig) -> Seq<DestEntry> {
    match config.required_install_files {
        Some(fl) => fl.items@.map_values(|it: FileItem| required_entry(it)),
        None => Seq::empty(),
    }
}

pub open spec fn plugin_entries(si: usize, gi: usize, pi: usize, p: Plugin) -> Seq<DestEntry> {
    match p.files {
        Some(fl) => fl.items@.map_values(|it: FileItem| plugin_entry(si, gi, pi, p, it)),
        None => Seq::empty(),
    }
}

pub open spec fn plugins_entries_upto(si: usize, gi: usize, plugins: Seq<Plugin>, n: int) -> Seq<DestEntry>
    decreases n,
{
    if n <= 0 {
        Seq::empty()
    } else {
        plugins_entries_upto(si, gi, plugins, n - 1) + plugin_entries(
            si,
            gi,
            (n - 1) as usize,
            plugins[n - 1],
        )
    }
}

pub open spec fn groups_entries_upto(si: usize, groups: Seq<Group>, n: int) -> Seq<DestEntry>
    decreases n,
{
    if n <= 0 {
        Seq::empty()
    } else {
        let ps = groups[n - 1].plugins.plugins@;
        groups_entries_upto(si, groups, n - 1) + plugins_entries_upto(
            si,
            (n - 1) as usize,
            ps,
            ps.len() as int,
        )
    }
}

pub open spec fn steps_entries_upto(steps: Seq<InstallStep>, n: int) -> Seq<DestEntry>
    decreases n,
{
    if n <= 0 {
        Seq::empty()
    } else {
        let gs = groups_of(steps[n - 1]);
        steps_entries_upto(steps, n - 1) + groups_entries_upto((n - 1) as usize, gs, gs.len() as int)
    }
}

/// Every file that the configuration can install, required files first,
/// then the files of every plugin of every step and group (visible or not),
/// with the destination each is compared by.
pub open spec fn conflict_entries(config: ModuleConfig) -> Seq<DestEntry> {
    required_entries(config) + steps_entries_upto(steps_of(config), steps_of(config).len() as int)
}

/// The sources of the entries whose destination is `d`, in order.
pub open spec fn sources_for(entries: Seq<DestEntry>, d: Seq<char>) -> Seq<FileConflictSource>
    decreases entries.len(),
{
    if entries.len() == 0 {
        Seq::empty()
    } else {
        let prev = sources_for(entries.drop_last(), d);
        if entries.last().0 == d {
            prev.push(entries.last().1)
        } else {
            prev
        }
    }
}

/// `conflicts` lists each destination that two or more entries share, once,
/// with all of its sources in order, and nothing else.
pub open spec fn conflicts_match(conflicts: Seq<FileConflict>, entries: Seq<DestEntry>) -> bool {
    &&& forall|i: int|
        0 <= i < conflicts.len() ==> (#[trigger] conflicts[i]).sources@ == sources_for(
            entries,
            conflicts[i].destination@,
        ) && conflicts[i].sources@.len() >= 2
    &&& forall|i: int, j: int|
        0 <= i < j < conflicts.len() ==> (#[trigger] conflicts[i]).destination@ != (
        #[trigger] conflicts[j]).destination@
    &&& forall|m: int|
        0 <= m < entries.len() && sources_for(entries, (#[trigger] entries[m]).0).len() >= 2
            ==> exists|i: int| 0 <= i < conflicts.len() && conflicts[i].destination@ == entries[m].0
}

fn clone_source(s: &FileConflictSource) -> (r: FileConflictSource)
    ensures
        r == *s,
{
    match s {
        FileConflictSource::Required { source } => FileConflictSource::Required { source: source.clone() },
        FileConflictSource::Plugin { step, group, plugin, plugin_name, source } => FileConflictSource::Plugin {
            step: *step,
            group: *group,
            plugin: *plugin,
            plugin_name: plugin_name.clone(),
            source: source.clone(),
        },
    }
}

fn push_plugin_entries(out: &mut Vec<(String, FileConflictSource)>, si: usize, gi: usize, pi: usize, p: &Plugin)
    ensures
        entries_view(final(out)@) == entries_view(old(out)@) + plugin_entries(si, gi, pi, *p),
{
    if let Some(fl) = &p.files {
        let ghost start = entries_view(out@);
        let mut i: usize = 0;
        while i < fl.items.len()
            invariant
                p.files == Some(*fl),
                i <= fl.items@.len(),
                entries_view(out@) == start + fl.items@.take(i as int).map_values(
                    |it: FileItem| plugin_entry(si, gi, pi, *p, it),
                ),
            decreases fl.items@.len() - i,
        {
            let r = fl.items[i].file_ref();
            let dest = normalize_dest(r.source.as_str(), r.destination.as_str());
            let src = FileConflictSource::Plugin {
                step: si,
                group: gi,
                plugin: pi,
                plugin_name: p.name.clone(),
                source: r.source.clone(),
            };
            let ghost prior = out@;
            out.push((dest, src));
            assert(entries_view(out@) =~= entries_view(prior).push(plugin_entry(si, gi, pi, *p, fl.items@[i as int])));
            i += 1;
            assert(entries_view(out@) =~= start + fl.items@.take(i as int).map_values(
                |it: FileItem| plugin_entry(si, gi, pi, *p, it),
            ));
        }
        assert(fl.items@.take(fl.items@.len() as int) =~= fl.items@);
    } else {
        assert(entries_view(out@) =~= entries_view(old(out)@) + plugin_entries(si, gi, pi, *p));
    }
}

/// All (normalized destination, source) entries of a configuration.
fn collect_entries(config: &ModuleConfig) -> (r: Vec<(String, FileConflictSource)>)
    ensures
        entries_view(r@) == conflict_entries(*config),
{
    let mut out: Vec<(String, FileConflictSource)> = Vec::new();
    // Required files
    if let Some(fl) = &config.required_install_files {
        let mut i: usize = 0;
        while i < fl.items.len()
            invariant
                config.required_install_files == Some(*fl),
                i <= fl.items@.len(),
                entries_view(out@) == fl.items@.take(i as int).map_values(
                    |it: FileItem| required_entry(it),
                ),
            decreases fl.items@.len() - i,
        {
            let r = fl.items[i].file_ref();
            let dest = normalize_dest(r.source.as_str(), r.destination.as_str());
            let ghost prior = out@;
            out.push((dest, FileConflictSource::Required { source: r.source.clone() }));
            assert(entries_view(out@) =~= entries_view(prior).push(required_entry(fl.items@[i as int])));
            i += 1;
            assert(entries_view(out@) =~= fl.items@.take(i as int).map_values(
                |it: FileItem| required_entry(it),
            ));
        }
        assert(fl.items@.take(fl.items@.len() as int) =~= fl.items@);
    } else {
        assert(entries_view(out@) =~= required_entries(*config));
    }
    let ghost req = entries_view(out@);
    // Plugin files
    if let Some(install_steps) = &config.install_steps {
        let steps = &install_steps.steps;
        let mut s: usize = 0;
        while s < steps.len()
            invariant
                config.install_steps == Some(*install_steps),
                *steps == install_steps.steps,
                s <= steps@.len(),
                entries_view(out@) == req + steps_entries_upto(steps@, s as int),
            decreases steps@.len() - s,
        {
            let ghost at_step = entries_view(out@);
            let step = &steps[s];
            if let Some(groups) = &step.optional_file_groups {
                let mut g: usize = 0;
                while g < groups.groups.len()
                    invariant
                        step.optional_file_groups == Some(*groups),
                        g <= groups.groups@.len(),
                        entries_view(out@) == at_step + groups_entries_upto(s, groups.groups@, g as int),
                    decreases groups.groups@.len() - g,
                {
                    let ghost at_group = entries_view(out@);
                    let group = &groups.groups[g];
                    let mut p: usize = 0;
                    while p < group.plugins.plugins.len()
                        invariant
                            p <= group.plugins.plugins@.len(),
                            entries_view(out@) == at_group + plugins_entries_upto(
                                s,
                                g,
                                group.plugins.plugins@,
                                p as int,
                            ),
                        decreases group.plugins.plugins@.len() - p,
                    {
                        push_plugin_entries(&mut out, s, g, p, &group.plugins.plugins[p]);
                        p += 1;
                        assert(entries_view(out@) =~= at_group + plugins_entries_upto(
                            s,
                            g,
                            group.plugins.plugins@,
                            p as int,
                        ));
                    }
                    g += 1;
                    assert(entries_view(out@) =~= at_step + groups_entries_upto(s, groups.groups@, g as int));
                }
            } else {
                assert(groups_entries_upto(s, groups_of(*step), 0) =~= Seq::<DestEntry>::empty());
            }
            s += 1;
            assert(entries_view(out@) =~= req + steps_entries_upto(steps@, s as int));
        }
    } else {
        assert(entries_view(out@) =~= conflict_entries(*config));
    }
    out
}

/// The sources of all entries with destination `d`.
fn sources_of(entries: &Vec<(String, FileConflictSource)>, d: &str) -> (r: Vec<FileConflictSource>)
    ensures
        r@ == sources_for(entries_view(entries@), d@),
{
    let ghost ev = entries_view(entries@);
    let mut out: Vec<FileConflictSource> = Vec::new();
    let mut k: usize = 0;
    while k < entries.len()
        invariant
            ev == entries_view(entries@),
            k <= entries@.len(),
            out@ == sources_for(ev.take(k as int), d@),
        decreases entries@.len() - k,
    {
        assert(ev.take(k + 1).drop_last() =~= ev.take(k as int));
        if str_eq(entries[k].0.as_str(), d) {
            out.push(clone_source(&entries[k].1));
        }
        k += 1;
    }
    assert(ev.take(entries@.len() as int) =~= ev);
    out
}

/// The first entry before `m` with the destination of entry `m`.
fn earlier_same_dest(entries: &Vec<(String, FileConflictSource)>, m: usize) -> (r: Option<usize>)
    requires
        m < entries@.len(),
    ensures
        match r {
            Some(j) => j < m && entries_view(entries@)[j as int].0 == entries_view(entries@)[m as int].0,
            None => forall|j: int|
                0 <= j < m ==> (#[trigger] entries_view(entries@)[j]).0 != entries_view(
                    entries@,
                )[m as int].0,
        },
{
    let ghost ev = entries_view(entries@);
    let d = entries[m].0.as_str();
    let mut k: usize = 0;
    while k < m
        invariant
            ev == entries_view(entries@),
            m < ev.len(),
            k <= m,
            d@ == ev[m as int].0,
            forall|j: int| 0 <= j < k ==> (#[trigger] ev[j]).0 != ev[m as int].0,
        decreases m - k,
    {
        if str_eq(entries[k].0.as_str(), d) {
            return Some(k);
        }
        k += 1;
    }
    None
}

/// Destinations that two or more files are installed to, with their sources.
#[verifier::rlimit(40)]
pub fn find_conflicts(config: &ModuleConfig) -> (r: Vec<FileConflict>)
    ensures
        conflicts_match(r@, conflict_entries(*config)),
{
    let entries = collect_entries(config);
    let ghost ev = entries_view(entries@);
    let mut out: Vec<FileConflict> = Vec::new();
    let ghost mut origin: Seq<int> = Seq::empty();
    let mut m: usize = 0;
    while m < entries.len()
        invariant
            ev == entries_view(entries@),
            ev == conflict_entries(*config),
            m <= ev.len(),
            forall|i: int|
                0 <= i < out@.len() ==> (#[trigger] out@[i]).sources@ == sources_for(
                    ev,
                    out@[i].destination@,
                ) && out@[i].sources@.len() >= 2,
            forall|i: int, j: int|
                0 <= i < j < out@.len() ==> (#[trigger] out@[i]).destination@ != (
                #[trigger] out@[j]).destination@,
            origin.len() == out@.len(),
            forall|i: int|
                0 <= i < out@.len() ==> 0 <= #[trigger] origin[i] < m && out@[i].destination@
                    == ev[origin[i]].0,
            forall|k: int|
                0 <= k < m && sources_for(ev, (#[trigger] ev[k]).0).len() >= 2 ==> exists|i: int|
                    0 <= i < out@.len() && out@[i].destination@ == ev[k].0,
        decreases ev.len() - m,
    {
        let ghost prior = out@;
        let ghost prior_origin = origin;
        let seen = earlier_same_dest(&entries, m);
        if seen.is_none() {
            let sources = sources_of(&entries, entries[m].0.as_str());
            if sources.len() > 1 {
                let c = FileConflict { destination: entries[m].0.clone(), sources };
                out.push(c);
                proof {
                    origin = origin.push(m as int);
                    assert(out@.drop_last() == prior);
                    assert forall|i: int| 0 <= i < out@.len() implies 0 <= #[trigger] origin[i] < m
                        + 1 && out@[i].destination@ == ev[origin[i]].0 by {
                        if i < prior.len() {
                            assert(out@[i] == prior[i]);
                            assert(origin[i] == prior_origin[i]);
                        }
                    }
                    assert forall|i: int, j: int|
                        0 <= i < j < out@.len() implies (#[trigger] out@[i]).destination@ != (
                        #[trigger] out@[j]).destination@ by {
                        assert(out@[i] == prior[i]);
                        assert(origin[i] == prior_origin[i]);
                        if j == prior.len() {
                            assert(ev[origin[i]].0 != ev[m as int].0);
                        } else {
                            assert(out@[j] == prior[j]);
                        }
                    }
                    assert forall|i: int| 0 <= i < out@.len() implies (#[trigger] out@[i]).sources@
                        == sources_for(ev, out@[i].destination@) && out@[i].sources@.len() >= 2 by {
                        if i < prior.len() {
                            assert(out@[i] == prior[i]);
                        }
                    }
                }
            }
        }
        proof {
            assert forall|k: int|
                0 <= k < m + 1 && sources_for(ev, (#[trigger] ev[k]).0).len() >= 2 implies exists|
                i: int,
            | 0 <= i < out@.len() && out@[i].destination@ == ev[k].0 by {
                let j = if k == m {
                    match seen {
                        Some(j) => j as int,
                        None => k,
                    }
                } else {
                    k
                };
                if j < m {
                    assert(ev[j].0 == ev[k].0);
                    let i = choose|i: int| 0 <= i < prior.len() && prior[i].destination@ == ev[j].0;
                    assert(out@[i] == prior[i]);
                } else {
                    assert(out@[out@.len() - 1].destination@ == ev[k].0);
                }
            }
        }
        m += 1;
    }
    out
}

/// The names of the flags that a dependency tests, including those of its
/// nested dependencies, in order.
pub open spec fn dep_flag_names(dep: CompositeDependency) -> Seq<Seq<char>>
    decreases dep, dep.nested@.len() + 1,
{
    dep.flag_deps@.map_values(|f: FlagDependency| f.flag@) + nested_flag_names(
        dep,
        dep.nested@.len() as int,
    )
}

/// The flag names of the first `n` nested dependencies of `dep`.
pub open spec fn nested_flag_names(dep: CompositeDependency, n: int) -> Seq<Seq<char>>
    decreases dep, if n < 0 { 0 } else { n },
{
    if n <= 0 || n > dep.nested@.len() {
        Seq::empty()
    } else {
        nested_flag_names(dep, n - 1) + dep_flag_names(dep.nested@[n - 1])
    }
}

/// Collect all flag names referenced by a composite dependency (recursively).
pub fn collect_flag_names(dep: &CompositeDependency) -> (r: Vec<String>)
    ensures
        strs_view(r@) == dep_flag_names(*dep),
    decreases dep,
{
    let mut names: Vec<String> = Vec::new();
    let mut i: usize = 0;
    while i < dep.flag_deps.len()
        invariant
            i <= dep.flag_deps@.len(),
            strs_view(names@) == dep.flag_deps@.take(i as int).map_values(|f: FlagDependency| f.flag@),
        decreases dep.flag_deps@.len() - i,
    {
        let ghost prior = names@;
        names.push(dep.flag_deps[i].flag.clone());
        assert(strs_view(names@) =~= strs_view(prior).push(dep.flag_deps@[i as int].flag@));
        i += 1;
        assert(strs_view(names@) =~= dep.flag_deps@.take(i as int).map_values(|f: FlagDependency| f.flag@));
    }
    assert(dep.flag_deps@.take(dep.flag_deps@.len() as int) =~= dep.flag_deps@);
    let ghost own = strs_view(names@);
    let mut j: usize = 0;
    while j < dep.nested.len()
        invariant
            j <= dep.nested@.len(),
            strs_view(names@) == own + nested_flag_names(*dep, j as int),
        decreases dep.nested@.len() - j,
    {
        let ghost prior = names@;
        let mut more = collect_flag_names(&dep.nested[j]);
        let ghost extra = more@;
        names.append(&mut more);
        assert(strs_view(names@) =~= strs_view(prior) + strs_view(extra));
        j += 1;
        assert(strs_view(names@) =~= own + nested_flag_names(*dep, j as int));
    }
    names
}

/// A flag that a plugin sets: (step, group, plugin, name, value).
pub type FlagSetter = (usize, usize, usize, String, String);

pub open spec fn plugin_setters(si: usize, gi: usize, pi: usize, p: Plugin) -> Seq<FlagSetter> {
    match p.condition_flags {
        Some(l) => l.flags@.map_values(|f: ConditionFlag| (si, gi, pi, f.name, f.value)),
        None => Seq::empty(),
    }
}

pub open spec fn plugins_setters_upto(si: usize, gi: usize, plugins: Seq<Plugin>, n: int) -> Seq<FlagSetter>
    decreases n,
{
    if n <= 0 {
        Seq::empty()
    } else {
        plugins_setters_upto(si, gi, plugins, n - 1) + plugin_setters(
            si,
            gi,
            (n - 1) as usize,
            plugins[n - 1],
        )
    }
}

pub open spec fn groups_setters_upto(si: usize, groups: Seq<Group>, n: int) -> Seq<FlagSetter>
    decreases n,
{
    if n <= 0 {
        Seq::empty()
    } else {
        let ps = groups[n - 1].plugins.plugins@;
        groups_setters_upto(si, groups, n - 1) + plugins_setters_upto(
            si,
            (n - 1) as usize,
            ps,
            ps.len() as int,
        )
    }
}

pub open spec fn steps_setters_upto(steps: Seq<InstallStep>, n: int) -> Seq<FlagSetter>
    decreases n,
{
    if n <= 0 {
        Seq::empty()
    } else {
        let gs = groups_of(steps[n - 1]);
        steps_setters_upto(steps, n - 1) + groups_setters_upto((n - 1) as usize, gs, gs.len() as int)
    }
}

/// Every flag that some plugin of the configuration sets, in document order.
pub open spec fn flag_setters(config: ModuleConfig) -> Seq<FlagSetter> {
    steps_setters_upto(steps_of(config), steps_of(config).len() as int)
}

/// The impacts on step `si` of the setters whose flag is in `refs`, in
/// setter order.
pub open spec fn impacts_for(
    si: usize,
    step_name: String,
    refs: Seq<Seq<char>>,
    setters: Seq<FlagSetter>,
) -> Seq<FlagImpact>
    decreases setters.len(),
{
    if setters.len() == 0 {
        Seq::empty()
    } else {
        let prev = impacts_for(si, step_name, refs, setters.drop_last());
        let s = setters.last();
        if refs.contains(s.3@) {
            prev.push(
                FlagImpact {
                    source_step: s.0,
                    source_group: s.1,
                    source_plugin: s.2,
                    flag_name: s.3,
                    affected_step: si,
                    affected_step_name: step_name,
                },
            )
        } else {
            prev
        }
    }
}

/// The impacts on the first `n` steps.
pub open spec fn impacts_upto(steps: Seq<InstallStep>, setters: Seq<FlagSetter>, n: int) -> Seq<
    FlagImpact,
>
    decreases n,
{
    if n <= 0 {
        Seq::empty()
    } else {
        let step = steps[n - 1];
        impacts_upto(steps, setters, n - 1) + match step.visible {
            Some(v) => impacts_for((n - 1) as usize, step.name, dep_flag_names(v), setters),
            None => Seq::empty(),
        }
    }
}

/// For each step with a visibility condition, in order, and each flag
/// setter whose flag that condition tests, in document order: the impact of
/// the setter on the step.
pub open spec fn flag_impacts(config: ModuleConfig) -> Seq<FlagImpact> {
    impacts_upto(steps_of(config), flag_setters(config), steps_of(config).len() as int)
}

fn push_plugin_setters(out: &mut Vec<FlagSetter>, si: usize, gi: usize, pi: usize, p: &Plugin)
    ensures
        final(out)@ == old(out)@ + plugin_setters(si, gi, pi, *p),
{
    if let Some(l) = &p.condition_flags {
        let ghost start = out@;
        let mut i: usize = 0;
        while i < l.flags.len()
            invariant
                p.condition_flags == Some(*l),
                i <= l.flags@.len(),
                out@ == start + l.flags@.take(i as int).map_values(
                    |f: ConditionFlag| (si, gi, pi, f.name, f.value),
                ),
            decreases l.flags@.len() - i,
        {
            out.push((si, gi, pi, l.flags[i].name.clone(), l.flags[i].value.clone()));
            i += 1;
            assert(out@ =~= start + l.flags@.take(i as int).map_values(
                |f: ConditionFlag| (si, gi, pi, f.name, f.value),
            ));
        }
        assert(l.flags@.take(l.flags@.len() as int) =~= l.flags@);
    } else {
        assert(out@ =~= old(out)@ + plugin_setters(si, gi, pi, *p));
    }
}

fn collect_setters(config: &ModuleConfig) -> (r: Vec<FlagSetter>)
    ensures
        r@ == flag_setters(*config),
{
    let mut out: Vec<FlagSetter> = Vec::new();
    if let Some(install_steps) = &config.install_steps {
        let steps = &install_steps.steps;
        let mut s: usize = 0;
        while s < steps.len()
            invariant
                config.install_steps == Some(*install_steps),
                *steps == install_steps.steps,
                s <= steps@.len(),
                out@ == steps_setters_upto(steps@, s as int),
            decreases steps@.len() - s,
        {
            let ghost at_step = out@;
            let step = &steps[s];
            if let Some(groups) = &step.optional_file_groups {
                let mut g: usize = 0;
                while g < groups.groups.len()
                    invariant
                        step.optional_file_groups == Some(*groups),
                        g <= groups.groups@.len(),
                        out@ == at_step + groups_setters_upto(s, groups.groups@, g as int),
                    decreases groups.groups@.len() - g,
                {
                    let ghost at_group = out@;
                    let group = &groups.groups[g];
                    let mut p: usize = 0;
                    while p < group.plugins.plugins.len()
                        invariant
                            p <= group.plugins.plugins@.len(),
                            out@ == at_group + plugins_setters_upto(
                                s,
                                g,
                                group.plugins.plugins@,
                                p as int,
                            ),
                        decreases group.plugins.plugins@.len() - p,
                    {
                        push_plugin_setters(&mut out, s, g, p, &group.plugins.plugins[p]);
                        p += 1;
                        assert(out@ =~= at_group + plugins_setters_upto(
                            s,
                            g,
                            group.plugins.plugins@,
                            p as int,
                        ));
                    }
                    g += 1;
                    assert(out@ =~= at_step + groups_setters_upto(s, groups.groups@, g as int));
                }
            } else {
                assert(groups_setters_upto(s, groups_of(*step), 0) =~= Seq::<FlagSetter>::empty());
            }
            s += 1;
            assert(out@ =~= steps_setters_upto(steps@, s as int));
        }
    } else {
        assert(out@ =~= flag_setters(*config));
    }
    out
}

/// Whether `names` holds `name`.
fn contains_name(names: &Vec<String>, name: &str) -> (b: bool)
    ensures
        b == strs_view(names@).contains(name@),
{
    let mut i: usize = 0;
    while i < names.len()
        invariant
            i <= names@.len(),
            forall|j: int| 0 <= j < i ==> (#[trigger] strs_view(names@)[j]) != name@,
        decreases names@.len() - i,
    {
        if str_eq(names[i].as_str(), name) {
            assert(strs_view(names@)[i as int] == name@);
            return true;
        }
        i += 1;
    }
    false
}

/// Which plugins set flags that affect other steps' visibility.
pub fn find_flag_impacts(config: &ModuleConfig) -> (r: Vec<FlagImpact>)
    ensures
        r@ == flag_impacts(*config),
{
    let setters = collect_setters(config);
    let mut impacts: Vec<FlagImpact> = Vec::new();
    if let Some(install_steps) = &config.install_steps {
        let steps = &install_steps.steps;
        let mut s: usize = 0;
        while s < steps.len()
            invariant
                config.install_steps == Some(*install_steps),
                *steps == install_steps.steps,
                setters@ == flag_setters(*config),
                s <= steps@.len(),
                impacts@ == impacts_upto(steps@, setters@, s as int),
            decreases steps@.len() - s,
        {
            let step = &steps[s];
            let ghost before = impacts@;
            if let Some(vis) = &step.visible {
                let refs = collect_flag_names(vis);
                let mut k: usize = 0;
                while k < setters.len()
                    invariant
                        step.visible == Some(*vis),
                        strs_view(refs@) == dep_flag_names(*vis),
                        k <= setters@.len(),
                        impacts@ == before + impacts_for(
                            s,
                            step.name,
                            dep_flag_names(*vis),
                            setters@.take(k as int),
                        ),
                    decreases setters@.len() - k,
                {
                    assert(setters@.take(k + 1).drop_last() =~= setters@.take(k as int));
                    let setter = &setters[k];
                    if contains_name(&refs, setter.3.as_str()) {
                        impacts.push(FlagImpact {
                            source_step: setter.0,
                            source_group: setter.1,
                            source_plugin: setter.2,
                            flag_name: setter.3.clone(),
                            affected_step: s,
                            affected_step_name: step.name.clone(),
                        });
                    }
                    k += 1;
                    assert(impacts@ =~= before + impacts_for(
                        s,
                        step.name,
                        dep_flag_names(*vis),
                        setters@.take(k as int),
                    ));
                }
                assert(setters@.take(setters@.len() as int) =~= setters@);
            } else {
                assert(impacts@ =~= before + Seq::<FlagImpact>::empty());
            }
            s += 1;
            assert(impacts@ =~= impacts_upto(steps@, setters@, s as int));
        }
    } else {
        assert(impacts@ =~= flag_impacts(*config));
    }
    impacts
}

} // verus!
