//! The content of a FOMOD `ModuleConfig.xml`, and the resolution of plugin
//! types from it.
use vstd::prelude::*;
use crate::condition::{composite_holds, CompositeDependency, EvalContext, EvalContextView, Evaluate};
use crate::sorting::Named;

verus! {

/// Root element of a FOMOD `ModuleConfig.xml`.
#[derive(Debug)]
pub struct ModuleConfig {
    pub module_name: ModuleName,
    pub module_image: Option<ModuleImage>,
    pub module_dependencies: Option<CompositeDependency>,
    pub required_install_files: Option<FileList>,
    pub install_steps: Option<InstallSteps>,
    pub conditional_file_installs: Option<ConditionalFileInstalls>,
}

/// Module display name with optional positioning.
#[derive(Debug, Clone)]
pub struct ModuleName {
    pub position: Option<NamePosition>,
    pub value: String,
}

#[derive(Debug, Clone, Copy, PartialEq, Eq, Structural)]
pub enum NamePosition {
    Left,
    Right,
    RightOfImage,
}

/// Header/banner image for the installer.
#[derive(Debug, Clone)]
pub struct ModuleImage {
    pub path: String,
    pub show_image: bool,
    pub show_fade: bool,
    pub height: i32,
}

/// Ordered sequence of installation steps (pages).
#[derive(Debug)]
pub struct InstallSteps {
    pub order: Option<SortOrder>,
    pub steps: Vec<InstallStep>,
}

/// A single page presented to the user.
#[derive(Debug)]
pub struct InstallStep {
    pub name: String,
    pub visible: Option<CompositeDependency>,
    pub optional_file_groups: Option<GroupList>,
}

/// Container for option groups within a step.
#[derive(Debug)]
pub struct GroupList {
    pub order: Option<SortOrder>,
    pub groups: Vec<Group>,
}

/// A group of related installation options.
#[derive(Debug)]
pub struct Group {
    pub name: String,
    pub group_type: GroupType,
    pub plugins: PluginList,
}

/// Container for plugins within a group.
#[derive(Debug)]
pub struct PluginList {
    pub order: Option<SortOrder>,
    pub plugins: Vec<Plugin>,
}

/// An individual installation option the user can select.
#[derive(Debug)]
pub struct Plugin {
    pub name: String,
    pub description: Option<String>,
    pub image: Option<PluginImage>,
    pub type_descriptor: Option<TypeDescriptor>,
    pub condition_flags: Option<ConditionFlagList>,
    pub files: Option<FileList>,
}

#[derive(Debug, Clone)]
pub struct PluginImage {
    pub path: String,
}

/// Describes the selection type of a plugin: a simple type, or one that
/// depends on conditions.
#[derive(Debug)]
pub struct TypeDescriptor {
    pub simple_type: Option<SimpleType>,
    pub dependency_type: Option<DependencyType>,
}

#[derive(Debug, Clone, Copy)]
pub struct SimpleType {
    pub name: PluginType,
}

/// Conditional type descriptor - type depends on runtime conditions.
#[derive(Debug)]
pub struct DependencyType {
    pub default_type: SimpleType,
    pub patterns: Option<TypePatterns>,
}

#[derive(Debug)]
pub struct TypePatterns {
    pub patterns: Vec<TypePattern>,
}

#[derive(Debug)]
pub struct TypePattern {
    pub dependencies: CompositeDependency,
    pub plugin_type: SimpleType,
}

/// Flags set when a plugin is selected.
#[derive(Debug, Clone)]
pub struct ConditionFlagList {
    pub flags: Vec<ConditionFlag>,
}

#[derive(Debug, Clone)]
pub struct ConditionFlag {
    pub name: String,
    pub value: String,
}

/// Pattern-based conditional file installations evaluated after all steps.
#[derive(Debug)]
pub struct ConditionalFileInstalls {
    pub patterns: ConditionalPatterns,
}

#[derive(Debug)]
pub struct ConditionalPatterns {
    pub patterns: Vec<ConditionalPattern>,
}

#[derive(Debug)]
pub struct ConditionalPattern {
    pub dependencies: CompositeDependency,
    pub files: FileList,
}

#[derive(Debug, Clone)]
pub struct FileList {
    pub items: Vec<FileItem>,
}

#[derive(Debug, Clone)]
pub enum FileItem {
    File(FileRef),
    Folder(FileRef),
}

#[derive(Debug, Clone)]
pub struct FileRef {
    pub source: String,
    pub destination: String,
    pub priority: i32,
    pub always_install: bool,
    pub install_if_usable: bool,
}

#[derive(Debug, Clone, Copy, PartialEq, Eq, Structural)]
pub enum GroupType {
    SelectExactlyOne,
    SelectAtMostOne,
    SelectAtLeastOne,
    SelectAll,
    SelectAny,
}

#[derive(Debug, Clone, Copy, PartialEq, Eq, Structural)]
pub enum PluginType {
    Required,
    Recommended,
    Optional,
    CouldBeUsable,
    NotUsable,
}

#[derive(Debug, Clone, Copy, PartialEq, Eq, Structural)]
pub enum SortOrder {
    Explicit,
    Ascending,
    Descending,
}

/// The value of a boolean attribute that is absent.
pub fn default_true() -> (b: bool)
    ensures
        b,
{
    true
}

/// The height of a module image that gives none.
pub fn default_neg_one() -> (h: i32)
    ensures
        h == -1,
{
    -1
}

impl Named for InstallStep {
    open spec fn name_view(&self) -> Seq<char> {
        self.name@
    }

    fn name(&self) -> (r: &str) {
        self.name.as_str()
    }
}

impl Named for Group {
    open spec fn name_view(&self) -> Seq<char> {
        self.name@
    }

    fn name(&self) -> (r: &str) {
        self.name.as_str()
    }
}

impl Named for Plugin {
    open spec fn name_view(&self) -> Seq<char> {
        self.name@
    }

    fn name(&self) -> (r: &str) {
        self.name.as_str()
    }
}

/// The view of an optional context.
pub open spec fn opt_ctx_view(ctx: Option<&EvalContext>) -> Option<EvalContextView> {
    match ctx {
        Some(c) => Some(c@),
        None => None,
    }
}

/// The type of the first pattern whose dependencies hold. Without a
/// context no pattern holds.
pub open spec fn first_matching_type(patterns: Seq<TypePattern>, ctx: Option<EvalContextView>) -> Option<
    PluginType,
>
    decreases patterns.len(),
{
    if patterns.len() == 0 {
        None
    } else if (match ctx {
        Some(c) => composite_holds(patterns[0].dependencies, c),
        None => false,
    }) {
        Some(patterns[0].plugin_type.name)
    } else {
        first_matching_type(patterns.drop_first(), ctx)
    }
}

/// The type a descriptor gives: its simple type when it has one; else the
/// type of the first matching pattern of its dependency type, or that
/// type's default; `Optional` when it has neither.
pub open spec fn descriptor_type(td: TypeDescriptor, ctx: Option<EvalContextView>) -> PluginType {
    match td.simple_type {
        Some(st) => st.name,
        None => match td.dependency_type {
            Some(dt) => match dt.patterns {
                Some(p) => match first_matching_type(p.patterns@, ctx) {
                    Some(t) => t,
                    None => dt.default_type.name,
                },
                None => dt.default_type.name,
            },
            None => PluginType::Optional,
        },
    }
}

/// The type of a plugin; `Optional` without a type descriptor.
pub open spec fn plugin_type_of(p: Plugin, ctx: Option<EvalContextView>) -> PluginType {
    match p.type_descriptor {
        Some(td) => descriptor_type(td, ctx),
        None => PluginType::Optional,
    }
}

proof fn lemma_first_matching_skip(patterns: Seq<TypePattern>, ctx: Option<EvalContextView>, i: int)
    requires
        0 <= i <= patterns.len(),
        forall|j: int|
            0 <= j < i ==> !(match ctx {
                Some(c) => composite_holds(#[trigger] patterns[j].dependencies, c),
                None => false,
            }),
    ensures
        first_matching_type(patterns, ctx) == first_matching_type(patterns.skip(i), ctx),
    decreases i,
{
    if i > 0 {
        assert(!(match ctx {
            Some(c) => composite_holds(patterns[0].dependencies, c),
            None => false,
        }));
        lemma_first_matching_skip(patterns.drop_first(), ctx, i - 1);
        assert(patterns.drop_first().skip(i - 1) =~= patterns.skip(i));
    } else {
        assert(patterns.skip(0) =~= patterns);
    }
}

impl TypeDescriptor {
    /// Static type resolution (no condition evaluation).
    pub fn resolved_type(&self) -> (t: PluginType)
        ensures
            t == descriptor_type(*self, None),
    {
        self.resolve_with(None)
    }

    /// Resolve type by evaluating `dependencyType` patterns against context.
    pub fn resolved_type_in_context(&self, ctx: &EvalContext) -> (t: PluginType)
        ensures
            t == descriptor_type(*self, Some(ctx@)),
    {
        self.resolve_with(Some(ctx))
    }

    /// Resolves the type; without a context no pattern matches.
    fn resolve_with(&self, ctx: Option<&EvalContext>) -> (t: PluginType)
        ensures
            t == descriptor_type(*self, opt_ctx_view(ctx)),
    {
        if let Some(st) = &self.simple_type {
            return st.name;
        }
        if let Some(dt) = &self.dependency_type {
            if let Some(patterns) = &dt.patterns {
                let ghost pats = patterns.patterns@;
                let mut i: usize = 0;
                while i < patterns.patterns.len()
                    invariant
                        self.simple_type is None,
                        self.dependency_type == Some(*dt),
                        dt.patterns == Some(*patterns),
                        pats == patterns.patterns@,
                        i <= pats.len(),
                        forall|j: int|
                            0 <= j < i ==> !(match opt_ctx_view(ctx) {
                                Some(c) => composite_holds(#[trigger] pats[j].dependencies, c),
                                None => false,
                            }),
                    decreases pats.len() - i,
                {
                    let pattern = &patterns.patterns[i];
                    let matched = match ctx {
                        Some(c) => pattern.dependencies.evaluate(c),
                        None => false,
                    };
                    if matched {
                        proof {
                            lemma_first_matching_skip(pats, opt_ctx_view(ctx), i as int);
                            assert(pats.skip(i as int)[0] == pats[i as int]);
                        }
                        return pattern.plugin_type.name;
                    }
                    i += 1;
                }
                proof {
                    lemma_first_matching_skip(pats, opt_ctx_view(ctx), i as int);
                }
            }
            return dt.default_type.name;
        }
        PluginType::Optional
    }
}

impl Plugin {
    /// Resolved plugin type using static information only, defaulting to
    /// `Optional`; patterns of a `dependencyType` are not evaluated.
    pub fn plugin_type(&self) -> (t: PluginType)
        ensures
            t == plugin_type_of(*self, None),
    {
        match &self.type_descriptor {
            Some(td) => td.resolved_type(),
            None => PluginType::Optional,
        }
    }

    /// Resolved plugin type with runtime condition evaluation, falling back
    /// to the default type if no pattern matches.
    pub fn plugin_type_in_context(&self, ctx: &EvalContext) -> (t: PluginType)
        ensures
            t == plugin_type_of(*self, Some(ctx@)),
    {
        match &self.type_descriptor {
            Some(td) => td.resolved_type_in_context(ctx),
            None => PluginType::Optional,
        }
    }
}

/// A simple type takes precedence over a dependency type, whatever the
/// context.
pub proof fn lemma_simple_type_wins(td: TypeDescriptor, ctx: Option<EvalContextView>)
    requires
        td.simple_type is Some,
    ensures
        descriptor_type(td, ctx) == td.simple_type->0.name,
        descriptor_type(td, ctx) == descriptor_type(td, None),
{
}

proof fn lemma_no_match_without_context(patterns: Seq<TypePattern>)
    ensures
        first_matching_type(patterns, None) is None,
    decreases patterns.len(),
{
    if patterns.len() > 0 {
        lemma_no_match_without_context(patterns.drop_first());
    }
}

/// Static resolution of a dependency type gives its default type: no
/// pattern is evaluated.
pub proof fn lemma_static_type_is_default(td: TypeDescriptor)
    requires
        td.simple_type is None,
        td.dependency_type is Some,
    ensures
        descriptor_type(td, None) == td.dependency_type->0.default_type.name,
{
    if let Some(p) = td.dependency_type->0.patterns {
        lemma_no_match_without_context(p.patterns@);
    }
}

/// Evaluating in a context changes a plugin's type only through the
/// patterns of a dependency type: without one, the static type is the
/// type in every context.
pub proof fn lemma_static_type_without_patterns(p: Plugin, ctx: EvalContextView)
    requires
        p.type_descriptor matches Some(td) ==> (td.simple_type is Some || td.dependency_type is None
            || td.dependency_type->0.patterns is None),
    ensures
        plugin_type_of(p, Some(ctx)) == plugin_type_of(p, None),
{
}

/// In a context, a descriptor without a simple type takes the type of the
/// first pattern of its dependency type whose dependencies hold, whatever
/// the later patterns say; when no pattern holds, it takes the default type.
pub proof fn lemma_first_holding_pattern_decides(td: TypeDescriptor, ctx: EvalContextView, i: int)
    requires
        td.simple_type is None,
        td.dependency_type matches Some(dt) && dt.patterns is Some,
    ensures
        ({
            let dt = td.dependency_type->0;
            let pats = dt.patterns->0.patterns@;
            &&& (0 <= i < pats.len() && composite_holds(pats[i].dependencies, ctx) && forall|j: int|
                0 <= j < i ==> !composite_holds(#[trigger] pats[j].dependencies, ctx))
                ==> descriptor_type(td, Some(ctx)) == pats[i].plugin_type.name
            &&& (forall|j: int| 0 <= j < pats.len() ==> !composite_holds(#[trigger] pats[j].dependencies, ctx))
                ==> descriptor_type(td, Some(ctx)) == dt.default_type.name
        }),
{
    let dt = td.dependency_type->0;
    let pats = dt.patterns->0.patterns@;
    if 0 <= i < pats.len() && composite_holds(pats[i].dependencies, ctx) && forall|j: int|
        0 <= j < i ==> !composite_holds(#[trigger] pats[j].dependencies, ctx) {
        lemma_first_matching_skip(pats, Some(ctx), i);
        assert(pats.skip(i)[0] == pats[i]);
    }
    if forall|j: int| 0 <= j < pats.len() ==> !composite_holds(#[trigger] pats[j].dependencies, ctx) {
        lemma_first_matching_skip(pats, Some(ctx), pats.len() as int);
        assert(pats.skip(pats.len() as int) =~= Seq::<TypePattern>::empty());
    }
}

impl FileItem {
    /// The file reference of a file or folder item.
    pub fn file_ref(&self) -> (r: &FileRef)
        ensures
            match self {
                FileItem::File(f) => *r == f,
                FileItem::Folder(f) => *r == f,
            },
    {
        match self {
            FileItem::File(r) => r,
            FileItem::Folder(r) => r,
        }
    }

    /// Whether the item is a folder.
    pub fn is_folder(&self) -> (b: bool)
        ensures
            b == (self is Folder),
    {
        match self {
            FileItem::File(_) => false,
            FileItem::Folder(_) => true,
        }
    }
}

/// The file reference of an item.
pub open spec fn item_ref(item: FileItem) -> FileRef {
    match item {
        FileItem::File(f) => f,
        FileItem::Folder(f) => f,
    }
}

} // verus!
