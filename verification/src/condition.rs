//! Dependencies (file, flag, game and mod manager version, and composite
//! AND/OR trees of these) and the context they are evaluated against.
use vstd::prelude::*;
use crate::assoc::{
    assign, lemma_assign_absent, lemma_assign_at, lemma_lookup_absent, lemma_lookup_assign,
    lemma_lookup_first, lemma_lookup_remove, lookup, remove_key,
};
use crate::text::{eq_ignore_ascii_case, str_eq, str_eq_ignore_ascii_case};
use crate::version::{check_version, version_at_least};

verus! {

/// Installation state of a file in the game directory.
#[derive(Debug, Clone, Copy, PartialEq, Eq, Structural)]
pub enum FileState {
    Active,
    Inactive,
    Missing,
}

/// How the parts of a composite dependency combine.
#[derive(Debug, Clone, Copy, PartialEq, Eq, Structural)]
pub enum Operator {
    And,
    Or,
}

/// The operator of a composite dependency that names none.
pub fn default_operator() -> (op: Operator)
    ensures
        op == Operator::And,
{
    Operator::And
}

/// Runtime context for evaluating conditions.
///
/// `flags` and `file_states` are association lists: the first entry of a
/// name holds its value (see `crate::assoc`).
#[derive(Debug, Clone)]
pub struct EvalContext {
    /// Flags set by user plugin selections, as (name, value).
    pub flags: Vec<(String, String)>,
    /// Known file states in the game directory, as (path, state).
    pub file_states: Vec<(String, FileState)>,
    /// Current game version (e.g. "1.5.0.0").
    pub game_version: Option<String>,
    /// Current mod manager version (for `fommDependency`).
    pub manager_version: Option<String>,
}

/// The mathematical content of an `EvalContext`.
pub struct EvalContextView {
    pub flags: Seq<(Seq<char>, Seq<char>)>,
    pub file_states: Seq<(Seq<char>, FileState)>,
    pub game_version: Option<Seq<char>>,
    pub manager_version: Option<Seq<char>>,
}

pub open spec fn flags_view(f: Seq<(String, String)>) -> Seq<(Seq<char>, Seq<char>)> {
    f.map_values(|e: (String, String)| (e.0@, e.1@))
}

pub open spec fn states_view(f: Seq<(String, FileState)>) -> Seq<(Seq<char>, FileState)> {
    f.map_values(|e: (String, FileState)| (e.0@, e.1))
}

pub open spec fn opt_string_view(o: Option<String>) -> Option<Seq<char>> {
    match o {
        Some(s) => Some(s@),
        None => None,
    }
}

impl View for EvalContext {
    type V = EvalContextView;

    open spec fn view(&self) -> EvalContextView {
        EvalContextView {
            flags: flags_view(self.flags@),
            file_states: states_view(self.file_states@),
            game_version: opt_string_view(self.game_version),
            manager_version: opt_string_view(self.manager_version),
        }
    }
}

/// The state of the first entry whose path equals `file` up to ASCII case
/// (FOMOD is Windows-centric); `Missing` when there is none.
pub open spec fn file_state_of(states: Seq<(Seq<char>, FileState)>, file: Seq<char>) -> FileState
    decreases states.len(),
{
    if states.len() == 0 {
        FileState::Missing
    } else if eq_ignore_ascii_case(states[0].0, file) {
        states[0].1
    } else {
        file_state_of(states.drop_first(), file)
    }
}

proof fn lemma_file_state_first(states: Seq<(Seq<char>, FileState)>, file: Seq<char>, i: int)
    requires
        0 <= i <= states.len(),
        forall|j: int| 0 <= j < i ==> !eq_ignore_ascii_case(#[trigger] states[j].0, file),
    ensures
        file_state_of(states, file) == file_state_of(states.skip(i), file),
    decreases i,
{
    if i > 0 {
        assert(!eq_ignore_ascii_case(states[0].0, file));
        lemma_file_state_first(states.drop_first(), file, i - 1);
        assert(states.drop_first().skip(i - 1) =~= states.skip(i));
    } else {
        assert(states.skip(0) =~= states);
    }
}

/// Something that holds or fails in an evaluation context.
pub trait Evaluate {
    spec fn holds(&self, ctx: EvalContextView) -> bool;

    fn evaluate(&self, ctx: &EvalContext) -> (r: bool)
        ensures
            r == self.holds(ctx@),
    ;
}

/// Requires a file to be in a given state.
#[derive(Debug, Clone)]
pub struct FileDependency {
    pub file: String,
    pub state: FileState,
}

impl Evaluate for FileDependency {
    open spec fn holds(&self, ctx: EvalContextView) -> bool {
        file_state_of(ctx.file_states, self.file@) == self.state
    }

    fn evaluate(&self, ctx: &EvalContext) -> (r: bool) {
        let n = ctx.file_states.len();
        let mut i: usize = 0;
        while i < n
            invariant
                n == ctx.file_states@.len(),
                i <= n,
                forall|j: int|
                    0 <= j < i ==> !eq_ignore_ascii_case(
                        #[trigger] ctx@.file_states[j].0,
                        self.file@,
                    ),
            decreases n - i,
        {
            if str_eq_ignore_ascii_case(ctx.file_states[i].0.as_str(), self.file.as_str()) {
                proof {
                    lemma_file_state_first(ctx@.file_states, self.file@, i as int);
                }
                return ctx.file_states[i].1 == self.state;
            }
            i += 1;
        }
        proof {
            lemma_file_state_first(ctx@.file_states, self.file@, i as int);
        }
        self.state == FileState::Missing
    }
}

/// Requires a flag to have a given value (compared exactly).
#[derive(Debug, Clone)]
pub struct FlagDependency {
    pub flag: String,
    pub value: String,
}

impl Evaluate for FlagDependency {
    open spec fn holds(&self, ctx: EvalContextView) -> bool {
        lookup(ctx.flags, self.flag@) == Some(self.value@)
    }

    fn evaluate(&self, ctx: &EvalContext) -> (r: bool) {
        match ctx.flag(self.flag.as_str()) {
            Some(v) => str_eq(v.as_str(), self.value.as_str()),
            None => false,
        }
    }
}

/// Requires the game version to be at least a given version.
#[derive(Debug, Clone)]
pub struct GameDependency {
    pub version: String,
}

impl Evaluate for GameDependency {
    open spec fn holds(&self, ctx: EvalContextView) -> bool {
        match ctx.game_version {
            Some(v) => version_at_least(v, self.version@),
            None => false,
        }
    }

    fn evaluate(&self, ctx: &EvalContext) -> (r: bool) {
        match &ctx.game_version {
            Some(v) => check_version(Some(v.as_str()), self.version.as_str()),
            None => check_version(None, self.version.as_str()),
        }
    }
}

/// FOMM (Fallout Mod Manager) / mod manager version dependency.
#[derive(Debug, Clone)]
pub struct FommDependency {
    pub version: String,
}

impl Evaluate for FommDependency {
    open spec fn holds(&self, ctx: EvalContextView) -> bool {
        match ctx.manager_version {
            Some(v) => version_at_least(v, self.version@),
            None => false,
        }
    }

    fn evaluate(&self, ctx: &EvalContext) -> (r: bool) {
        match &ctx.manager_version {
            Some(v) => check_version(Some(v.as_str()), self.version.as_str()),
            None => check_version(None, self.version.as_str()),
        }
    }
}

/// Composite dependency with AND/OR logic, potentially nested.
#[derive(Debug)]
pub struct CompositeDependency {
    pub operator: Operator,
    pub file_deps: Vec<FileDependency>,
    pub flag_deps: Vec<FlagDependency>,
    pub game_deps: Vec<GameDependency>,
    pub fomm_deps: Vec<FommDependency>,
    /// Nested composite dependencies for complex logic.
    pub nested: Vec<CompositeDependency>,
}

/// Whether every part of a composite dependency holds.
pub open spec fn all_parts_hold(c: CompositeDependency, ctx: EvalContextView) -> bool
    decreases c, 0nat,
{
    &&& forall|i: int| 0 <= i < c.file_deps.len() ==> (#[trigger] c.file_deps@[i]).holds(ctx)
    &&& forall|i: int| 0 <= i < c.flag_deps.len() ==> (#[trigger] c.flag_deps@[i]).holds(ctx)
    &&& forall|i: int| 0 <= i < c.game_deps.len() ==> (#[trigger] c.game_deps@[i]).holds(ctx)
    &&& forall|i: int| 0 <= i < c.fomm_deps.len() ==> (#[trigger] c.fomm_deps@[i]).holds(ctx)
    &&& forall|i: int| 0 <= i < c.nested.len() ==> composite_holds(#[trigger] c.nested@[i], ctx)
}

/// Whether some part of a composite dependency holds.
pub open spec fn some_part_holds(c: CompositeDependency, ctx: EvalContextView) -> bool
    decreases c, 0nat,
{
    ||| exists|i: int| 0 <= i < c.file_deps.len() && (#[trigger] c.file_deps@[i]).holds(ctx)
    ||| exists|i: int| 0 <= i < c.flag_deps.len() && (#[trigger] c.flag_deps@[i]).holds(ctx)
    ||| exists|i: int| 0 <= i < c.game_deps.len() && (#[trigger] c.game_deps@[i]).holds(ctx)
    ||| exists|i: int| 0 <= i < c.fomm_deps.len() && (#[trigger] c.fomm_deps@[i]).holds(ctx)
    ||| exists|i: int| 0 <= i < c.nested.len() && composite_holds(#[trigger] c.nested@[i], ctx)
}

/// AND: every part holds (true when there are none); OR: some part holds
/// (false when there are none).
pub open spec fn composite_holds(c: CompositeDependency, ctx: EvalContextView) -> bool
    decreases c, 1nat,
{
    match c.operator {
        Operator::And => all_parts_hold(c, ctx),
        Operator::Or => some_part_holds(c, ctx),
    }
}

/// Whether some element of `deps` evaluates to `target`.
fn any_evaluates_to<T: Evaluate>(deps: &Vec<T>, ctx: &EvalContext, target: bool) -> (r: bool)
    ensures
        r == exists|i: int| 0 <= i < deps@.len() && (#[trigger] deps@[i]).holds(ctx@) == target,
{
    let mut i: usize = 0;
    while i < deps.len()
        invariant
            i <= deps@.len(),
            forall|j: int| 0 <= j < i ==> (#[trigger] deps@[j]).holds(ctx@) != target,
        decreases deps@.len() - i,
    {
        if deps[i].evaluate(ctx) == target {
            assert(deps@[i as int].holds(ctx@) == target);
            return true;
        }
        i += 1;
    }
    false
}

impl Evaluate for CompositeDependency {
    open spec fn holds(&self, ctx: EvalContextView) -> bool {
        composite_holds(*self, ctx)
    }

    fn evaluate(&self, ctx: &EvalContext) -> (r: bool)
        decreases self,
    {
        let target = match self.operator {
            Operator::And => false,
            Operator::Or => true,
        };
        let found = any_evaluates_to(&self.file_deps, ctx, target) || any_evaluates_to(
            &self.flag_deps,
            ctx,
            target,
        ) || any_evaluates_to(&self.game_deps, ctx, target) || any_evaluates_to(
            &self.fomm_deps,
            ctx,
            target,
        );
        if found {
            return target;
        }
        let mut i: usize = 0;
        while i < self.nested.len()
            invariant
                i <= self.nested@.len(),
                target == (self.operator == Operator::Or),
                forall|j: int|
                    0 <= j < self.file_deps@.len() ==> (#[trigger] self.file_deps@[j]).holds(ctx@)
                        != target,
                forall|j: int|
                    0 <= j < self.flag_deps@.len() ==> (#[trigger] self.flag_deps@[j]).holds(ctx@)
                        != target,
                forall|j: int|
                    0 <= j < self.game_deps@.len() ==> (#[trigger] self.game_deps@[j]).holds(ctx@)
                        != target,
                forall|j: int|
                    0 <= j < self.fomm_deps@.len() ==> (#[trigger] self.fomm_deps@[j]).holds(ctx@)
                        != target,
                forall|j: int|
                    0 <= j < i ==> composite_holds(#[trigger] self.nested@[j], ctx@) != target,
            decreases self.nested@.len() - i,
        {
            if self.nested[i].evaluate(ctx) == target {
                assert(composite_holds(self.nested@[i as int], ctx@) == target);
                return target;
            }
            i += 1;
        }
        !target
    }
}

impl EvalContext {
    /// An empty context: no flags, no file states, no versions.
    pub fn new() -> (ctx: EvalContext)
        ensures
            ctx@.flags == Seq::<(Seq<char>, Seq<char>)>::empty(),
            ctx@.file_states == Seq::<(Seq<char>, FileState)>::empty(),
            ctx@.game_version is None,
            ctx@.manager_version is None,
    {
        let ctx = EvalContext {
            flags: Vec::new(),
            file_states: Vec::new(),
            game_version: None,
            manager_version: None,
        };
        assert(ctx@.flags =~= Seq::<(Seq<char>, Seq<char>)>::empty());
        assert(ctx@.file_states =~= Seq::<(Seq<char>, FileState)>::empty());
        ctx
    }

    /// Index of the first flag entry named `name`.
    fn find_flag(&self, name: &str) -> (r: Option<usize>)
        ensures
            match r {
                Some(i) => {
                    &&& i < self@.flags.len()
                    &&& self@.flags[i as int].0 == name@
                    &&& forall|j: int| 0 <= j < i ==> self@.flags[j].0 != name@
                },
                None => forall|j: int| 0 <= j < self@.flags.len() ==> self@.flags[j].0 != name@,
            },
    {
        let mut i: usize = 0;
        while i < self.flags.len()
            invariant
                i <= self.flags@.len(),
                forall|j: int| 0 <= j < i ==> (#[trigger] self@.flags[j]).0 != name@,
            decreases self.flags@.len() - i,
        {
            if str_eq(self.flags[i].0.as_str(), name) {
                return Some(i);
            }
            i += 1;
        }
        None
    }

    /// The value of a flag, if it is set.
    pub fn flag(&self, name: &str) -> (r: Option<&String>)
        ensures
            match r {
                Some(v) => lookup(self@.flags, name@) == Some(v@),
                None => lookup(self@.flags, name@) is None,
            },
    {
        match self.find_flag(name) {
            Some(i) => {
                proof {
                    lemma_lookup_first(self@.flags, name@, i as int);
                }
                Some(&self.flags[i].1)
            },
            None => {
                proof {
                    lemma_lookup_absent(self@.flags, name@);
                }
                None
            },
        }
    }

    /// Sets a flag, replacing its value when it is already set.
    pub fn set_flag(&mut self, name: &str, value: &str)
        ensures
            final(self)@.flags == assign(old(self)@.flags, name@, value@),
            final(self)@.file_states == old(self)@.file_states,
            final(self)@.game_version == old(self)@.game_version,
            final(self)@.manager_version == old(self)@.manager_version,
    {
        let entry = (String::from_str(name), String::from_str(value));
        match self.find_flag(name) {
            Some(i) => {
                proof {
                    lemma_assign_at(old(self)@.flags, name@, value@, i as int);
                }
                self.flags.set(i, entry);
                assert(self@.flags =~= old(self)@.flags.update(i as int, (name@, value@)));
            },
            None => {
                proof {
                    lemma_assign_absent(old(self)@.flags, name@, value@);
                }
                self.flags.push(entry);
                assert(self@.flags =~= old(self)@.flags.push((name@, value@)));
            },
        }
    }

    /// Removes every entry of a flag.
    pub fn remove_flag(&mut self, name: &str)
        ensures
            final(self)@.flags == remove_key(old(self)@.flags, name@),
            final(self)@.file_states == old(self)@.file_states,
            final(self)@.game_version == old(self)@.game_version,
            final(self)@.manager_version == old(self)@.manager_version,
    {
        let ghost f = |e: (Seq<char>, Seq<char>)| e.0 != name@;
        let mut kept: Vec<(String, String)> = Vec::new();
        let mut i: usize = 0;
        while i < self.flags.len()
            invariant
                i <= self.flags@.len(),
                self == old(self),
                f == (|e: (Seq<char>, Seq<char>)| e.0 != name@),
                flags_view(kept@) == self@.flags.take(i as int).filter(f),
            decreases self.flags@.len() - i,
        {
            let ghost prefix = self@.flags.take(i as int);
            proof {
                assert(self@.flags.take(i + 1) =~= prefix.push(self@.flags[i as int]));
                prefix.lemma_filter_push(self@.flags[i as int], f);
            }
            assert(self@.flags[i as int].0 == self.flags@[i as int].0@);
            assert(f(self@.flags[i as int]) == (self.flags@[i as int].0@ != name@));
            if !str_eq(self.flags[i].0.as_str(), name) {
                let e = (self.flags[i].0.clone(), self.flags[i].1.clone());
                let ghost before = kept@;
                kept.push(e);
                assert(flags_view(kept@) =~= flags_view(before).push(self@.flags[i as int]));
            } else {
                assert(prefix.push(self@.flags[i as int]).filter(f) == prefix.filter(f));
            }
            i += 1;
        }
        assert(self@.flags.take(self.flags@.len() as int) =~= self@.flags);
        self.flags = kept;
    }

    /// The state recorded for exactly this path, if any.
    pub fn file_state(&self, file: &str) -> (r: Option<FileState>)
        ensures
            r == lookup(self@.file_states, file@),
    {
        match self.find_file(file) {
            Some(i) => {
                proof {
                    lemma_lookup_first(self@.file_states, file@, i as int);
                }
                Some(self.file_states[i].1)
            },
            None => {
                proof {
                    lemma_lookup_absent(self@.file_states, file@);
                }
                None
            },
        }
    }

    /// Index of the first file-state entry for exactly `file`.
    fn find_file(&self, file: &str) -> (r: Option<usize>)
        ensures
            match r {
                Some(i) => {
                    &&& i < self@.file_states.len()
                    &&& self@.file_states[i as int].0 == file@
                    &&& forall|j: int| 0 <= j < i ==> self@.file_states[j].0 != file@
                },
                None => forall|j: int|
                    0 <= j < self@.file_states.len() ==> self@.file_states[j].0 != file@,
            },
    {
        let mut i: usize = 0;
        while i < self.file_states.len()
            invariant
                i <= self.file_states@.len(),
                forall|j: int| 0 <= j < i ==> (#[trigger] self@.file_states[j]).0 != file@,
            decreases self.file_states@.len() - i,
        {
            if str_eq(self.file_states[i].0.as_str(), file) {
                return Some(i);
            }
            i += 1;
        }
        None
    }

    /// Records the state of a file, replacing an entry for exactly this path.
    pub fn set_file_state(&mut self, file: &str, state: FileState)
        ensures
            final(self)@.file_states == assign(old(self)@.file_states, file@, state),
            final(self)@.flags == old(self)@.flags,
            final(self)@.game_version == old(self)@.game_version,
            final(self)@.manager_version == old(self)@.manager_version,
    {
        let entry = (String::from_str(file), state);
        match self.find_file(file) {
            Some(i) => {
                proof {
                    lemma_assign_at(old(self)@.file_states, file@, state, i as int);
                }
                self.file_states.set(i, entry);
                assert(self@.file_states =~= old(self)@.file_states.update(
                    i as int,
                    (file@, state),
                ));
            },
            None => {
                proof {
                    lemma_assign_absent(old(self)@.file_states, file@, state);
                }
                self.file_states.push(entry);
                assert(self@.file_states =~= old(self)@.file_states.push((file@, state)));
            },
        }
    }
}

/// A flag reads back as the value it was last set to; setting one flag
/// leaves every other flag as it was.
pub proof fn lemma_set_flag_then_read(
    flags: Seq<(Seq<char>, Seq<char>)>,
    name: Seq<char>,
    value: Seq<char>,
    other: Seq<char>,
)
    ensures
        lookup(assign(flags, name, value), name) == Some(value),
        other != name ==> lookup(assign(flags, name, value), other) == lookup(flags, other),
{
    lemma_lookup_assign(flags, name, value, name);
    lemma_lookup_assign(flags, name, value, other);
}

/// A flag that was removed is unset; every other flag keeps its value.
pub proof fn lemma_remove_flag_then_read(
    flags: Seq<(Seq<char>, Seq<char>)>,
    name: Seq<char>,
    other: Seq<char>,
)
    ensures
        lookup(remove_key(flags, name), name) is None,
        other != name ==> lookup(remove_key(flags, name), other) == lookup(flags, other),
{
    lemma_lookup_remove(flags, name, name);
    lemma_lookup_remove(flags, name, other);
}

/// An AND with no parts holds and an OR with no parts fails, in every
/// context.
pub proof fn lemma_empty_composite(c: CompositeDependency, ctx: EvalContextView)
    requires
        c.file_deps.len() == 0,
        c.flag_deps.len() == 0,
        c.game_deps.len() == 0,
        c.fomm_deps.len() == 0,
        c.nested.len() == 0,
    ensures
        composite_holds(c, ctx) == (c.operator == Operator::And),
{
}

/// Under AND a composite holds exactly when every one of its file, flag,
/// game version, mod manager version and nested dependencies holds; under
/// OR exactly when at least one of them holds.
pub proof fn lemma_composite_by_parts(c: CompositeDependency, ctx: EvalContextView)
    ensures
        c.operator == Operator::And ==> (composite_holds(c, ctx) <==> {
            &&& forall|i: int| 0 <= i < c.file_deps.len() ==> #[trigger] c.file_deps@[i].holds(ctx)
            &&& forall|i: int| 0 <= i < c.flag_deps.len() ==> #[trigger] c.flag_deps@[i].holds(ctx)
            &&& forall|i: int| 0 <= i < c.game_deps.len() ==> #[trigger] c.game_deps@[i].holds(ctx)
            &&& forall|i: int| 0 <= i < c.fomm_deps.len() ==> #[trigger] c.fomm_deps@[i].holds(ctx)
            &&& forall|i: int| 0 <= i < c.nested.len() ==> composite_holds(#[trigger] c.nested@[i], ctx)
        }),
        c.operator == Operator::Or ==> (composite_holds(c, ctx) <==> {
            ||| exists|i: int| 0 <= i < c.file_deps.len() && #[trigger] c.file_deps@[i].holds(ctx)
            ||| exists|i: int| 0 <= i < c.flag_deps.len() && #[trigger] c.flag_deps@[i].holds(ctx)
            ||| exists|i: int| 0 <= i < c.game_deps.len() && #[trigger] c.game_deps@[i].holds(ctx)
            ||| exists|i: int| 0 <= i < c.fomm_deps.len() && #[trigger] c.fomm_deps@[i].holds(ctx)
            ||| exists|i: int| 0 <= i < c.nested.len() && composite_holds(#[trigger] c.nested@[i], ctx)
        }),
{
    match c.operator {
        Operator::And => assert(composite_holds(c, ctx) == all_parts_hold(c, ctx)),
        Operator::Or => assert(composite_holds(c, ctx) == some_part_holds(c, ctx)),
    }
}

/// A mod manager version dependency decides like any other part: an AND
/// composite that has one fails when the manager version is unknown or
/// older than the one it asks for, and an OR composite that has one holds
/// when the manager version is at least the one it asks for.
pub proof fn lemma_manager_version_decides(c: CompositeDependency, ctx: EvalContextView, i: int)
    requires
        0 <= i < c.fomm_deps.len(),
    ensures
        c.operator == Operator::And && (match ctx.manager_version {
            Some(v) => !version_at_least(v, c.fomm_deps@[i].version@),
            None => true,
        }) ==> !composite_holds(c, ctx),
        c.operator == Operator::Or && (match ctx.manager_version {
            Some(v) => version_at_least(v, c.fomm_deps@[i].version@),
            None => false,
        }) ==> composite_holds(c, ctx),
{
    assert(c.fomm_deps@[i].holds(ctx) == match ctx.manager_version {
        Some(v) => version_at_least(v, c.fomm_deps@[i].version@),
        None => false,
    });
}

} // verus!
