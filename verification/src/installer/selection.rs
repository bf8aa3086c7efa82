//! Selections within a group: validation against the group type, default
//! selections, and the condition flags that a selection sets.
use vstd::prelude::*;
use crate::assoc::{assign, lemma_lookup_assign, lemma_lookup_remove, lookup, remove_key};
use crate::condition::{flags_view, EvalContext, EvalContextView};
use crate::config::{opt_ctx_view, plugin_type_of, ConditionFlag, Group, GroupType, Plugin, PluginType};
use crate::text::decimal_string;

verus! {

#[derive(Debug, Clone, PartialEq, Eq)]
pub enum SelectionError {
    OutOfBounds,
    InvalidCount { expected: &'static str, got: usize },
}

/// The outcome of validating `sel` against a group: an index past the
/// plugin list is `OutOfBounds`; otherwise the count must fit the group
/// type (exactly 1, at most 1, at least 1, all, or any).
pub open spec fn selection_check(g: Group, sel: Seq<usize>) -> Result<(), SelectionError> {
    let count = sel.len() as usize;
    let max = g.plugins.plugins.len();
    if exists|i: int| 0 <= i < sel.len() && sel[i] >= max {
        Err(SelectionError::OutOfBounds)
    } else {
        match g.group_type {
            GroupType::SelectExactlyOne => if sel.len() != 1 {
                Err(SelectionError::InvalidCount { expected: "exactly 1", got: count })
            } else {
                Ok(())
            },
            GroupType::SelectAtMostOne => if sel.len() > 1 {
                Err(SelectionError::InvalidCount { expected: "at most 1", got: count })
            } else {
                Ok(())
            },
            GroupType::SelectAtLeastOne => if sel.len() < 1 {
                Err(SelectionError::InvalidCount { expected: "at least 1", got: count })
            } else {
                Ok(())
            },
            GroupType::SelectAll => if sel.len() != max {
                Err(SelectionError::InvalidCount { expected: "all", got: count })
            } else {
                Ok(())
            },
            GroupType::SelectAny => Ok(()),
        }
    }
}

/// Validate selections against group type constraints.
pub fn check_selection(group: &Group, selected: &[usize]) -> (r: Result<(), SelectionError>)
    ensures
        r == selection_check(*group, selected@),
{
    let count = selected.len();
    let max = group.plugins.plugins.len();
    let mut i: usize = 0;
    while i < count
        invariant
            count == selected@.len(),
            max == group.plugins.plugins@.len(),
            i <= count,
            forall|j: int| 0 <= j < i ==> selected@[j] < max,
        decreases count - i,
    {
        if selected[i] >= max {
            return Err(SelectionError::OutOfBounds);
        }
        i += 1;
    }
    match group.group_type {
        GroupType::SelectExactlyOne => if count != 1 {
            Err(SelectionError::InvalidCount { expected: "exactly 1", got: count })
        } else {
            Ok(())
        },
        GroupType::SelectAtMostOne => if count > 1 {
            Err(SelectionError::InvalidCount { expected: "at most 1", got: count })
        } else {
            Ok(())
        },
        GroupType::SelectAtLeastOne => if count < 1 {
            Err(SelectionError::InvalidCount { expected: "at least 1", got: count })
        } else {
            Ok(())
        },
        GroupType::SelectAll => if count != max {
            Err(SelectionError::InvalidCount { expected: "all", got: count })
        } else {
            Ok(())
        },
        GroupType::SelectAny => Ok(()),
    }
}

/// The text of a selection error.
pub open spec fn selection_error_text(e: SelectionError) -> Seq<char> {
    match e {
        SelectionError::OutOfBounds => "plugin index out of bounds"@,
        SelectionError::InvalidCount { expected, got } => "expected "@ + expected@ + " selections, got "@
            + decimal_string(got as nat),
    }
}

impl SelectionError {
    /// The human-readable text of the error.
    pub fn message(&self) -> (s: String)
        ensures
            s@ == selection_error_text(*self),
    {
        match self {
            SelectionError::OutOfBounds => String::from_str("plugin index out of bounds"),
            SelectionError::InvalidCount { expected, got } => {
                let mut s = String::from_str("expected ");
                s.append(expected);
                s.append(" selections, got ");
                crate::text::push_decimal(&mut s, *got);
                s
            },
        }
    }
}

/// A plugin of type `Required` or `Recommended`.
pub open spec fn preferred(p: Plugin, ctx: Option<EvalContextView>) -> bool {
    plugin_type_of(p, ctx) == PluginType::Required || plugin_type_of(p, ctx)
        == PluginType::Recommended
}

/// The indices of the preferred plugins among the first `n`, in order.
pub open spec fn preferred_upto(plugins: Seq<Plugin>, ctx: Option<EvalContextView>, n: int) -> Seq<usize>
    decreases n,
{
    if n <= 0 {
        Seq::empty()
    } else {
        let prev = preferred_upto(plugins, ctx, n - 1);
        if preferred(plugins[n - 1], ctx) {
            prev.push((n - 1) as usize)
        } else {
            prev
        }
    }
}

pub open spec fn preferred_indices(g: Group, ctx: Option<EvalContextView>) -> Seq<usize> {
    preferred_upto(g.plugins.plugins@, ctx, g.plugins.plugins@.len() as int)
}

/// The default selection of a group: every plugin for `SelectAll`; the
/// first preferred plugin, if any, for `SelectExactlyOne` and
/// `SelectAtMostOne`; every preferred plugin otherwise.
pub open spec fn default_selection(g: Group, ctx: Option<EvalContextView>) -> Seq<usize> {
    let prefs = preferred_indices(g, ctx);
    match g.group_type {
        GroupType::SelectAll => Seq::new(g.plugins.plugins@.len(), |i: int| i as usize),
        GroupType::SelectExactlyOne | GroupType::SelectAtMostOne => if prefs.len() > 0 {
            seq![prefs[0]]
        } else {
            Seq::empty()
        },
        GroupType::SelectAtLeastOne | GroupType::SelectAny => prefs,
    }
}

proof fn lemma_preferred_upto_bounds(plugins: Seq<Plugin>, ctx: Option<EvalContextView>, n: int)
    requires
        n <= plugins.len(),
        plugins.len() <= usize::MAX,
    ensures
        forall|i: int|
            0 <= i < preferred_upto(plugins, ctx, n).len() ==> #[trigger] preferred_upto(
                plugins,
                ctx,
                n,
            )[i] < n,
        n >= 0 ==> preferred_upto(plugins, ctx, n).len() <= n,
    decreases n,
{
    if n > 0 {
        lemma_preferred_upto_bounds(plugins, ctx, n - 1);
    }
}

proof fn lemma_preferred_upto_empty(plugins: Seq<Plugin>, ctx: Option<EvalContextView>, n: int)
    requires
        0 <= n <= plugins.len(),
        forall|j: int| 0 <= j < n ==> !preferred(#[trigger] plugins[j], ctx),
    ensures
        preferred_upto(plugins, ctx, n) == Seq::<usize>::empty(),
    decreases n,
{
    if n > 0 {
        lemma_preferred_upto_empty(plugins, ctx, n - 1);
    }
}

proof fn lemma_preferred_upto_first(plugins: Seq<Plugin>, ctx: Option<EvalContextView>, i: int, n: int)
    requires
        0 <= i < n <= plugins.len(),
        plugins.len() <= usize::MAX,
        preferred(plugins[i], ctx),
        forall|j: int| 0 <= j < i ==> !preferred(#[trigger] plugins[j], ctx),
    ensures
        preferred_upto(plugins, ctx, n).len() > 0,
        preferred_upto(plugins, ctx, n)[0] == i,
    decreases n,
{
    let prev = preferred_upto(plugins, ctx, n - 1);
    if n - 1 > i {
        lemma_preferred_upto_first(plugins, ctx, i, n - 1);
        assert(prev.len() > 0);
        assert(prev.push((n - 1) as usize)[0] == prev[0]);
    } else {
        lemma_preferred_upto_empty(plugins, ctx, i);
        assert(prev.push(i as usize)[0] == i);
    }
}

/// The default selection of a group; without a context the patterns of a
/// dependency type are not evaluated.
pub fn compute_defaults(group: &Group, ctx: Option<&EvalContext>) -> (r: Vec<usize>)
    ensures
        r@ == default_selection(*group, opt_ctx_view(ctx)),
{
    let n = group.plugins.plugins.len();
    let ghost plugins = group.plugins.plugins@;
    let ghost cv = opt_ctx_view(ctx);
    match group.group_type {
        GroupType::SelectAll => {
            let mut out: Vec<usize> = Vec::new();
            let mut i: usize = 0;
            while i < n
                invariant
                    i <= n,
                    out@ =~= Seq::new(i as nat, |k: int| k as usize),
                decreases n - i,
            {
                out.push(i);
                i += 1;
            }
            out
        },
        GroupType::SelectExactlyOne | GroupType::SelectAtMostOne => {
            let mut i: usize = 0;
            while i < n
                invariant
                    n == plugins.len(),
                    plugins == group.plugins.plugins@,
                    cv == opt_ctx_view(ctx),
                    group.group_type == GroupType::SelectExactlyOne || group.group_type
                        == GroupType::SelectAtMostOne,
                    i <= n,
                    forall|j: int| 0 <= j < i ==> !preferred(#[trigger] plugins[j], cv),
                decreases n - i,
            {
                let t = match ctx {
                    Some(c) => group.plugins.plugins[i].plugin_type_in_context(c),
                    None => group.plugins.plugins[i].plugin_type(),
                };
                if t == PluginType::Required || t == PluginType::Recommended {
                    proof {
                        lemma_preferred_upto_first(plugins, cv, i as int, n as int);
                    }
                    let mut out: Vec<usize> = Vec::new();
                    out.push(i);
                    assert(out@ =~= seq![i]);
                    return out;
                }
                i += 1;
            }
            proof {
                lemma_preferred_upto_empty(plugins, cv, n as int);
            }
            Vec::new()
        },
        GroupType::SelectAtLeastOne | GroupType::SelectAny => {
            let mut out: Vec<usize> = Vec::new();
            let mut i: usize = 0;
            while i < n
                invariant
                    n == plugins.len(),
                    plugins == group.plugins.plugins@,
                    cv == opt_ctx_view(ctx),
                    i <= n,
                    out@ == preferred_upto(plugins, cv, i as int),
                decreases n - i,
            {
                let t = match ctx {
                    Some(c) => group.plugins.plugins[i].plugin_type_in_context(c),
                    None => group.plugins.plugins[i].plugin_type(),
                };
                if t == PluginType::Required || t == PluginType::Recommended {
                    out.push(i);
                }
                i += 1;
            }
            out
        },
    }
}

/// Default selections never point past the plugin list; they satisfy the
/// group type except when a group that needs a selection
/// (`SelectExactlyOne`, `SelectAtLeastOne`) has no preferred plugin.
pub proof fn lemma_defaults_valid(g: Group, ctx: Option<EvalContextView>)
    ensures
        selection_check(g, default_selection(g, ctx)) != Err::<(), SelectionError>(
            SelectionError::OutOfBounds,
        ),
        (selection_check(g, default_selection(g, ctx)) is Ok) <==> match g.group_type {
            GroupType::SelectExactlyOne | GroupType::SelectAtLeastOne => preferred_indices(g, ctx).len()
                > 0,
            _ => true,
        },
{
    let plugins = g.plugins.plugins@;
    assert(plugins.len() == g.plugins.plugins.len());
    lemma_preferred_upto_bounds(plugins, ctx, plugins.len() as int);
    let d = default_selection(g, ctx);
    assert(forall|i: int| 0 <= i < d.len() ==> d[i] < plugins.len());
}

/// The views of a sequence of strings.
pub open spec fn strs_view(s: Seq<String>) -> Seq<Seq<char>> {
    s.map_values(|x: String| x@)
}

/// The names of a sequence of flags.
pub open spec fn flag_names(fs: Seq<ConditionFlag>) -> Seq<Seq<char>> {
    fs.map_values(|f: ConditionFlag| f.name@)
}

/// The (name, value) pairs of a sequence of flags.
pub open spec fn flag_pairs(fs: Seq<ConditionFlag>) -> Seq<(Seq<char>, Seq<char>)> {
    fs.map_values(|f: ConditionFlag| (f.name@, f.value@))
}

/// The names of the flags of a plugin.
pub open spec fn plugin_flag_names(p: Plugin) -> Seq<Seq<char>> {
    match p.condition_flags {
        Some(l) => flag_names(l.flags@),
        None => Seq::empty(),
    }
}

/// The (name, value) pairs of the flags of a plugin.
pub open spec fn plugin_flag_pairs(p: Plugin) -> Seq<(Seq<char>, Seq<char>)> {
    match p.condition_flags {
        Some(l) => flag_pairs(l.flags@),
        None => Seq::empty(),
    }
}

/// The flag names of the first `n` plugins, in order.
pub open spec fn flag_names_upto(plugins: Seq<Plugin>, n: int) -> Seq<Seq<char>>
    decreases n,
{
    if n <= 0 {
        Seq::empty()
    } else {
        flag_names_upto(plugins, n - 1) + plugin_flag_names(plugins[n - 1])
    }
}

/// The names of all flags that plugins of a group set.
pub open spec fn group_flag_names(g: Group) -> Seq<Seq<char>> {
    flag_names_upto(g.plugins.plugins@, g.plugins.plugins@.len() as int)
}

/// The flags that the selected plugins set, in selection order; indices past
/// the plugin list contribute nothing.
pub open spec fn selected_flag_pairs(g: Group, sel: Seq<usize>) -> Seq<(Seq<char>, Seq<char>)>
    decreases sel.len(),
{
    if sel.len() == 0 {
        Seq::empty()
    } else {
        let prev = selected_flag_pairs(g, sel.drop_last());
        let idx = sel.last();
        if idx < g.plugins.plugins@.len() {
            prev + plugin_flag_pairs(g.plugins.plugins@[idx as int])
        } else {
            prev
        }
    }
}

/// Removes each named flag in turn.
pub open spec fn remove_all(flags: Seq<(Seq<char>, Seq<char>)>, names: Seq<Seq<char>>) -> Seq<
    (Seq<char>, Seq<char>),
>
    decreases names.len(),
{
    if names.len() == 0 {
        flags
    } else {
        remove_key(remove_all(flags, names.drop_last()), names.last())
    }
}

/// Sets each (name, value) in turn.
pub open spec fn assign_all(
    flags: Seq<(Seq<char>, Seq<char>)>,
    pairs: Seq<(Seq<char>, Seq<char>)>,
) -> Seq<(Seq<char>, Seq<char>)>
    decreases pairs.len(),
{
    if pairs.len() == 0 {
        flags
    } else {
        let p = pairs.last();
        assign(assign_all(flags, pairs.drop_last()), p.0, p.1)
    }
}

/// The flags after selecting `sel` in a group: every flag that some plugin
/// of the group sets is cleared, then the flags of the selected plugins are
/// set in order.
pub open spec fn flags_after_select(
    flags: Seq<(Seq<char>, Seq<char>)>,
    g: Group,
    sel: Seq<usize>,
) -> Seq<(Seq<char>, Seq<char>)> {
    assign_all(remove_all(flags, group_flag_names(g)), selected_flag_pairs(g, sel))
}

/// The value that the last pair of `name` gives it.
pub open spec fn last_value(pairs: Seq<(Seq<char>, Seq<char>)>, name: Seq<char>) -> Option<Seq<char>>
    decreases pairs.len(),
{
    if pairs.len() == 0 {
        None
    } else if pairs.last().0 == name {
        Some(pairs.last().1)
    } else {
        last_value(pairs.drop_last(), name)
    }
}

proof fn lemma_remove_all_lookup(flags: Seq<(Seq<char>, Seq<char>)>, names: Seq<Seq<char>>, k: Seq<char>)
    ensures
        lookup(remove_all(flags, names), k) == if names.contains(k) {
            None
        } else {
            lookup(flags, k)
        },
    decreases names.len(),
{
    if names.len() > 0 {
        lemma_remove_all_lookup(flags, names.drop_last(), k);
        lemma_lookup_remove(remove_all(flags, names.drop_last()), names.last(), k);
        if names.contains(k) && k != names.last() {
            let i = choose|i: int| 0 <= i < names.len() && names[i] == k;
            assert(names.drop_last()[i] == k);
        }
        if names.drop_last().contains(k) {
            let i = choose|i: int| 0 <= i < names.drop_last().len() && names.drop_last()[i] == k;
            assert(names[i] == k);
        }
    }
}

proof fn lemma_assign_all_lookup(
    flags: Seq<(Seq<char>, Seq<char>)>,
    pairs: Seq<(Seq<char>, Seq<char>)>,
    k: Seq<char>,
)
    ensures
        lookup(assign_all(flags, pairs), k) == match last_value(pairs, k) {
            Some(v) => Some(v),
            None => lookup(flags, k),
        },
    decreases pairs.len(),
{
    if pairs.len() > 0 {
        lemma_assign_all_lookup(flags, pairs.drop_last(), k);
        lemma_lookup_assign(assign_all(flags, pairs.drop_last()), pairs.last().0, pairs.last().1, k);
    }
}

/// After a selection, a flag that a selected plugin sets has the value the
/// last such plugin gives it; a flag that only other plugins of the group
/// set is cleared; every other flag is unchanged.
pub proof fn lemma_select_flags(flags: Seq<(Seq<char>, Seq<char>)>, g: Group, sel: Seq<usize>, k: Seq<char>)
    ensures
        lookup(flags_after_select(flags, g, sel), k) == match last_value(
            selected_flag_pairs(g, sel),
            k,
        ) {
            Some(v) => Some(v),
            None => if group_flag_names(g).contains(k) {
                None
            } else {
                lookup(flags, k)
            },
        },
{
    lemma_assign_all_lookup(remove_all(flags, group_flag_names(g)), selected_flag_pairs(g, sel), k);
    lemma_remove_all_lookup(flags, group_flag_names(g), k);
}

/// Selecting the same plugins of a group again changes no flag.
pub proof fn lemma_reselect_flags(flags: Seq<(Seq<char>, Seq<char>)>, g: Group, sel: Seq<usize>, k: Seq<char>)
    ensures
        lookup(flags_after_select(flags_after_select(flags, g, sel), g, sel), k) == lookup(
            flags_after_select(flags, g, sel),
            k,
        ),
{
    lemma_select_flags(flags, g, sel, k);
    lemma_select_flags(flags_after_select(flags, g, sel), g, sel, k);
}

/// Whether a plugin sets a flag of this name.
pub open spec fn names_flag(p: Plugin, name: Seq<char>) -> bool {
    match p.condition_flags {
        Some(l) => exists|f: int| 0 <= f < l.flags@.len() && (#[trigger] l.flags@[f]).name@ == name,
        None => false,
    }
}

/// Whether a plugin sets the flag `name` to `value`.
pub open spec fn sets_flag(p: Plugin, name: Seq<char>, value: Seq<char>) -> bool {
    match p.condition_flags {
        Some(l) => exists|f: int|
            0 <= f < l.flags@.len() && (#[trigger] l.flags@[f]).name@ == name && l.flags@[f].value@
                == value,
        None => false,
    }
}

proof fn lemma_concat_contains<A>(a: Seq<A>, b: Seq<A>, x: A)
    ensures
        (a + b).contains(x) <==> a.contains(x) || b.contains(x),
{
    if (a + b).contains(x) {
        let i = choose|i: int| 0 <= i < (a + b).len() && (a + b)[i] == x;
        if i < a.len() {
            assert(a[i] == x);
        } else {
            assert(b[i - a.len()] == x);
        }
    }
    if a.contains(x) {
        let i = choose|i: int| 0 <= i < a.len() && a[i] == x;
        assert((a + b)[i] == x);
    }
    if b.contains(x) {
        let i = choose|i: int| 0 <= i < b.len() && b[i] == x;
        assert((a + b)[a.len() + i] == x);
    }
}

proof fn lemma_plugin_names_contains(p: Plugin, k: Seq<char>)
    ensures
        plugin_flag_names(p).contains(k) <==> names_flag(p, k),
{
    if let Some(l) = p.condition_flags {
        let names = flag_names(l.flags@);
        if names.contains(k) {
            let f = choose|f: int| 0 <= f < names.len() && names[f] == k;
            assert(l.flags@[f].name@ == k);
        }
        if names_flag(p, k) {
            let f = choose|f: int| 0 <= f < l.flags@.len() && (#[trigger] l.flags@[f]).name@ == k;
            assert(names[f] == k);
        }
    }
}

proof fn lemma_flag_names_upto_contains(plugins: Seq<Plugin>, n: int, k: Seq<char>)
    requires
        0 <= n <= plugins.len(),
    ensures
        flag_names_upto(plugins, n).contains(k) <==> exists|i: int|
            0 <= i < n && #[trigger] names_flag(plugins[i], k),
    decreases n,
{
    if n > 0 {
        lemma_flag_names_upto_contains(plugins, n - 1, k);
        lemma_concat_contains(flag_names_upto(plugins, n - 1), plugin_flag_names(plugins[n - 1]), k);
        lemma_plugin_names_contains(plugins[n - 1], k);
        if exists|i: int| 0 <= i < n && #[trigger] names_flag(plugins[i], k) {
            let i = choose|i: int| 0 <= i < n && #[trigger] names_flag(plugins[i], k);
            if i < n - 1 {
                assert(exists|i: int| 0 <= i < n - 1 && #[trigger] names_flag(plugins[i], k));
            }
        }
    }
}

proof fn lemma_last_value_concat(
    a: Seq<(Seq<char>, Seq<char>)>,
    b: Seq<(Seq<char>, Seq<char>)>,
    k: Seq<char>,
)
    ensures
        last_value(a + b, k) == match last_value(b, k) {
            Some(v) => Some(v),
            None => last_value(a, k),
        },
    decreases b.len(),
{
    if b.len() == 0 {
        assert(a + b =~= a);
    } else {
        assert((a + b).drop_last() =~= a + b.drop_last());
        assert((a + b).last() == b.last());
        lemma_last_value_concat(a, b.drop_last(), k);
    }
}

proof fn lemma_last_value_flags(fs: Seq<ConditionFlag>, k: Seq<char>)
    ensures
        last_value(flag_pairs(fs), k) matches Some(v) ==> exists|f: int|
            0 <= f < fs.len() && (#[trigger] fs[f]).name@ == k && fs[f].value@ == v,
        (exists|f: int| 0 <= f < fs.len() && (#[trigger] fs[f]).name@ == k) ==> last_value(
            flag_pairs(fs),
            k,
        ) is Some,
    decreases fs.len(),
{
    if fs.len() > 0 {
        let init = fs.drop_last();
        assert(flag_pairs(fs).drop_last() =~= flag_pairs(init));
        assert(flag_pairs(fs).last() == (fs.last().name@, fs.last().value@));
        lemma_last_value_flags(init, k);
        if let Some(v) = last_value(flag_pairs(init), k) {
            let f = choose|f: int| 0 <= f < init.len() && (#[trigger] init[f]).name@ == k && init[f].value@ == v;
            assert(fs[f] == init[f]);
        }
        if exists|f: int| 0 <= f < fs.len() && (#[trigger] fs[f]).name@ == k {
            let f = choose|f: int| 0 <= f < fs.len() && (#[trigger] fs[f]).name@ == k;
            if f < fs.len() - 1 {
                assert(init[f] == fs[f]);
            }
        }
    }
}

proof fn lemma_plugin_pairs_value(p: Plugin, k: Seq<char>)
    ensures
        last_value(plugin_flag_pairs(p), k) matches Some(v) ==> sets_flag(p, k, v),
        names_flag(p, k) ==> last_value(plugin_flag_pairs(p), k) is Some,
        !names_flag(p, k) ==> last_value(plugin_flag_pairs(p), k) is None,
{
    match p.condition_flags {
        Some(l) => {
            lemma_last_value_flags(l.flags@, k);
            if let Some(v) = last_value(plugin_flag_pairs(p), k) {
                let f = choose|f: int|
                    0 <= f < l.flags@.len() && (#[trigger] l.flags@[f]).name@ == k && l.flags@[f].value@ == v;
                assert(sets_flag(p, k, v));
            }
        },
        None => {},
    }
}

proof fn lemma_selected_value(g: Group, sel: Seq<usize>, k: Seq<char>)
    ensures
        last_value(selected_flag_pairs(g, sel), k) matches Some(v) ==> exists|s: int|
            0 <= s < sel.len() && sel[s] < g.plugins.plugins@.len() && #[trigger] sets_flag(
                g.plugins.plugins@[sel[s] as int],
                k,
                v,
            ) && forall|t: int|
                s < t < sel.len() && sel[t] < g.plugins.plugins@.len() ==> !names_flag(
                    #[trigger] g.plugins.plugins@[sel[t] as int],
                    k,
                ),
        (exists|s: int|
            0 <= s < sel.len() && sel[s] < g.plugins.plugins@.len() && #[trigger] names_flag(
                g.plugins.plugins@[sel[s] as int],
                k,
            )) ==> last_value(selected_flag_pairs(g, sel), k) is Some,
    decreases sel.len(),
{
    let plugins = g.plugins.plugins@;
    if sel.len() > 0 {
        let init = sel.drop_last();
        let n = sel.len() - 1;
        let idx = sel.last();
        lemma_selected_value(g, init, k);
        let prev = selected_flag_pairs(g, init);
        if idx < plugins.len() {
            lemma_last_value_concat(prev, plugin_flag_pairs(plugins[idx as int]), k);
            lemma_plugin_pairs_value(plugins[idx as int], k);
        }
        if let Some(v) = last_value(selected_flag_pairs(g, sel), k) {
            if idx < plugins.len() && last_value(plugin_flag_pairs(plugins[idx as int]), k) is Some {
                assert(sel[n] == idx);
                assert(sets_flag(plugins[sel[n] as int], k, v));
            } else {
                assert(last_value(prev, k) == Some(v));
                let s = choose|s: int|
                    0 <= s < init.len() && init[s] < plugins.len() && #[trigger] sets_flag(
                        plugins[init[s] as int],
                        k,
                        v,
                    ) && forall|t: int|
                        s < t < init.len() && init[t] < plugins.len() ==> !names_flag(
                            #[trigger] plugins[init[t] as int],
                            k,
                        );
                assert(sel[s] == init[s]);
                assert forall|t: int|
                    s < t < sel.len() && sel[t] < plugins.len() implies !names_flag(
                        #[trigger] plugins[sel[t] as int],
                        k,
                    ) by {
                    if t < n {
                        assert(sel[t] == init[t]);
                    }
                }
            }
        }
        if exists|s: int|
            0 <= s < sel.len() && sel[s] < plugins.len() && #[trigger] names_flag(
                plugins[sel[s] as int],
                k,
            ) {
            let s = choose|s: int|
                0 <= s < sel.len() && sel[s] < plugins.len() && #[trigger] names_flag(
                    plugins[sel[s] as int],
                    k,
                );
            if s < n {
                assert(init[s] == sel[s]);
            }
        }
    }
}

/// What selecting `sel` in group `g` does to a flag `k`:
/// - when some plugin of the group sets `k` and no selected plugin does,
///   `k` is unset afterwards;
/// - when a selected plugin sets `k`, `k` afterwards has the value that the
///   last such plugin in selection order gives it;
/// - when no plugin of the group sets `k`, `k` keeps the value it had.
pub proof fn lemma_selection_flag_effects(
    flags: Seq<(Seq<char>, Seq<char>)>,
    g: Group,
    sel: Seq<usize>,
    k: Seq<char>,
)
    ensures
        (exists|i: int| 0 <= i < g.plugins.plugins@.len() && #[trigger] names_flag(g.plugins.plugins@[i], k))
            && !(exists|s: int|
            0 <= s < sel.len() && sel[s] < g.plugins.plugins@.len() && #[trigger] names_flag(
                g.plugins.plugins@[sel[s] as int],
                k,
            )) ==> lookup(flags_after_select(flags, g, sel), k) is None,
        (exists|s: int|
            0 <= s < sel.len() && sel[s] < g.plugins.plugins@.len() && #[trigger] names_flag(
                g.plugins.plugins@[sel[s] as int],
                k,
            )) ==> exists|s: int, v: Seq<char>|
            0 <= s < sel.len() && sel[s] < g.plugins.plugins@.len() && #[trigger] sets_flag(
                g.plugins.plugins@[sel[s] as int],
                k,
                v,
            ) && lookup(flags_after_select(flags, g, sel), k) == Some(v) && forall|t: int|
                s < t < sel.len() && sel[t] < g.plugins.plugins@.len() ==> !names_flag(
                    #[trigger] g.plugins.plugins@[sel[t] as int],
                    k,
                ),
        !(exists|i: int| 0 <= i < g.plugins.plugins@.len() && #[trigger] names_flag(g.plugins.plugins@[i], k))
            ==> lookup(flags_after_select(flags, g, sel), k) == lookup(flags, k),
{
    let plugins = g.plugins.plugins@;
    lemma_select_flags(flags, g, sel, k);
    lemma_selected_value(g, sel, k);
    lemma_flag_names_upto_contains(plugins, plugins.len() as int, k);
    if let Some(v) = last_value(selected_flag_pairs(g, sel), k) {
        let s = choose|s: int|
            0 <= s < sel.len() && sel[s] < plugins.len() && #[trigger] sets_flag(plugins[sel[s] as int], k, v)
                && forall|t: int|
                s < t < sel.len() && sel[t] < plugins.len() ==> !names_flag(
                    #[trigger] plugins[sel[t] as int],
                    k,
                );
        let p = plugins[sel[s] as int];
        let l = p.condition_flags->0;
        let f = choose|f: int|
            0 <= f < l.flags@.len() && (#[trigger] l.flags@[f]).name@ == k && l.flags@[f].value@ == v;
        assert(names_flag(p, k));
        assert(0 <= sel[s] < plugins.len());
    }
}

/// Applies the flag changes of selecting `sel` in `group` to `ctx`.
pub fn apply_selection_flags(ctx: &mut EvalContext, group: &Group, sel: &Vec<usize>)
    ensures
        final(ctx)@.flags == flags_after_select(old(ctx)@.flags, *group, sel@),
        final(ctx)@.file_states == old(ctx)@.file_states,
        final(ctx)@.game_version == old(ctx)@.game_version,
        final(ctx)@.manager_version == old(ctx)@.manager_version,
{
    let ghost plugins = group.plugins.plugins@;
    let ghost start = ctx@;
    // Gather all flag names from every plugin in this group, to clear.
    let mut to_clear: Vec<String> = Vec::new();
    let mut p: usize = 0;
    while p < group.plugins.plugins.len()
        invariant
            plugins == group.plugins.plugins@,
            p <= plugins.len(),
            strs_view(to_clear@) == flag_names_upto(plugins, p as int),
        decreases plugins.len() - p,
    {
        let plugin = &group.plugins.plugins[p];
        let ghost before = to_clear@;
        if let Some(flags) = &plugin.condition_flags {
            let mut f: usize = 0;
            while f < flags.flags.len()
                invariant
                    plugin.condition_flags == Some(*flags),
                    f <= flags.flags@.len(),
                    strs_view(to_clear@) == strs_view(before)
                        + flag_names(flags.flags@.take(f as int)),
                decreases flags.flags@.len() - f,
            {
                let ghost prior = to_clear@;
                to_clear.push(flags.flags[f].name.clone());
                assert(strs_view(to_clear@) =~= strs_view(prior).push(flags.flags@[f as int].name@));
                assert(flag_names(flags.flags@.take(f + 1)) =~= flag_names(flags.flags@.take(f as int)).push(flags.flags@[f as int].name@));
                f += 1;
                assert(strs_view(to_clear@) =~= strs_view(before)
                    + flag_names(flags.flags@.take(f as int)));
            }
            assert(flags.flags@.take(flags.flags@.len() as int) =~= flags.flags@);
        } else {
            assert(to_clear@ =~= before);
        }
        p += 1;
        assert(strs_view(to_clear@) =~= flag_names_upto(plugins, p as int));
    }
    // Gather the flags of the selected plugins, to set.
    let mut to_set: Vec<(String, String)> = Vec::new();
    let mut s: usize = 0;
    while s < sel.len()
        invariant
            plugins == group.plugins.plugins@,
            s <= sel@.len(),
            flags_view(to_set@) == selected_flag_pairs(
                *group,
                sel@.take(s as int),
            ),
        decreases sel@.len() - s,
    {
        let idx = sel[s];
        let ghost before = to_set@;
        assert(sel@.take(s + 1).drop_last() =~= sel@.take(s as int));
        if idx < group.plugins.plugins.len() {
            let plugin = &group.plugins.plugins[idx];
            if let Some(flags) = &plugin.condition_flags {
                let mut f: usize = 0;
                while f < flags.flags.len()
                    invariant
                        plugin.condition_flags == Some(*flags),
                        f <= flags.flags@.len(),
                        flags_view(to_set@) == flags_view(before) + flag_pairs(flags.flags@.take(f as int)),
                    decreases flags.flags@.len() - f,
                {
                    let ghost prior = to_set@;
                    to_set.push((flags.flags[f].name.clone(), flags.flags[f].value.clone()));
                    assert(flags_view(to_set@) =~= flags_view(prior).push((flags.flags@[f as int].name@, flags.flags@[f as int].value@)));
                    assert(flag_pairs(flags.flags@.take(f + 1)) =~= flag_pairs(flags.flags@.take(f as int)).push((flags.flags@[f as int].name@, flags.flags@[f as int].value@)));
                    f += 1;
                    assert(flags_view(to_set@) =~= flags_view(before) + flag_pairs(flags.flags@.take(f as int)));
                }
                assert(flags.flags@.take(flags.flags@.len() as int) =~= flags.flags@);
            } else {
                assert(to_set@ =~= before);
            }
        } else {
            assert(to_set@ =~= before);
        }
        s += 1;
        assert(flags_view(to_set@) =~= selected_flag_pairs(
            *group,
            sel@.take(s as int),
        ));
    }
    assert(sel@.take(sel@.len() as int) =~= sel@);
    let ghost names = strs_view(to_clear@);
    let mut i: usize = 0;
    while i < to_clear.len()
        invariant
            i <= to_clear@.len(),
            names == strs_view(to_clear@),
            ctx@.flags == remove_all(start.flags, names.take(i as int)),
            ctx@.file_states == start.file_states,
            ctx@.game_version == start.game_version,
            ctx@.manager_version == start.manager_version,
        decreases to_clear@.len() - i,
    {
        ctx.remove_flag(to_clear[i].as_str());
        assert(names.take(i + 1).drop_last() =~= names.take(i as int));
        i += 1;
    }
    assert(names.take(to_clear@.len() as int) =~= names);
    let ghost cleared = ctx@.flags;
    let ghost pairs = flags_view(to_set@);
    let mut j: usize = 0;
    while j < to_set.len()
        invariant
            j <= to_set@.len(),
            pairs == flags_view(to_set@),
            ctx@.flags == assign_all(cleared, pairs.take(j as int)),
            ctx@.file_states == start.file_states,
            ctx@.game_version == start.game_version,
            ctx@.manager_version == start.manager_version,
        decreases to_set@.len() - j,
    {
        ctx.set_flag(to_set[j].0.as_str(), to_set[j].1.as_str());
        assert(pairs.take(j + 1).drop_last() =~= pairs.take(j as int));
        j += 1;
    }
    assert(pairs.take(to_set@.len() as int) =~= pairs);
}

} // verus!

verus! {

/// The mathematical content of a selection list: (step, group) keys with
/// the selected plugin indices.
pub open spec fn sel_view(s: Seq<((usize, usize), Vec<usize>)>) -> Seq<((usize, usize), Seq<usize>)> {
    s.map_values(|e: ((usize, usize), Vec<usize>)| (e.0, e.1@))
}

} // verus!
