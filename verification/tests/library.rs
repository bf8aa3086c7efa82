use motux_fomod::condition::{
    CompositeDependency, EvalContext, Evaluate, FileState, FlagDependency, Operator,
};
use motux_fomod::config::{
    ConditionFlag, ConditionFlagList, ConditionalFileInstalls, ConditionalPattern,
    ConditionalPatterns, DependencyType, FileItem, FileList, FileRef, Group, GroupList, GroupType,
    InstallStep, InstallSteps, ModuleConfig, ModuleImage, ModuleName, Plugin, PluginImage,
    PluginList, PluginType, SimpleType, SortOrder, TypeDescriptor, TypePattern, TypePatterns,
};
use motux_fomod::installer::analysis::FileConflictSource;
use motux_fomod::installer::plan::FileOperation;
use motux_fomod::installer::status::ValidationHint;
use motux_fomod::installer::Installer;
use motux_fomod::paths::{find_name_ignore_case, path_parts};
use motux_fomod::text::{str_eq_ignore_ascii_case, str_lt};
use motux_fomod::version::{check_version, compare_versions, parse_version};

fn config_with_steps(steps: Vec<InstallStep>) -> ModuleConfig {
    ModuleConfig {
        module_name: ModuleName {
            position: None,
            value: "T".into(),
        },
        module_image: None,
        module_dependencies: None,
        required_install_files: None,
        install_steps: Some(InstallSteps { order: None, steps }),
        conditional_file_installs: None,
    }
}

fn empty_config() -> ModuleConfig {
    let mut c = config_with_steps(Vec::new());
    c.install_steps = None;
    c
}

fn simple(t: PluginType) -> Option<TypeDescriptor> {
    Some(TypeDescriptor {
        simple_type: Some(SimpleType { name: t }),
        dependency_type: None,
    })
}

fn plugin(name: &str) -> Plugin {
    Plugin {
        name: name.into(),
        description: None,
        image: None,
        type_descriptor: simple(PluginType::Optional),
        condition_flags: None,
        files: None,
    }
}

fn group(name: &str, gtype: GroupType, plugins: Vec<Plugin>) -> Group {
    Group {
        name: name.into(),
        group_type: gtype,
        plugins: PluginList {
            order: None,
            plugins,
        },
    }
}

fn step(name: &str, visible: Option<CompositeDependency>, groups: Vec<Group>) -> InstallStep {
    InstallStep {
        name: name.into(),
        visible,
        optional_file_groups: Some(GroupList {
            order: None,
            groups,
        }),
    }
}

fn flag_dep(flag: &str, value: &str) -> CompositeDependency {
    CompositeDependency {
        operator: Operator::And,
        file_deps: Vec::new(),
        flag_deps: vec![FlagDependency {
            flag: flag.into(),
            value: value.into(),
        }],
        game_deps: Vec::new(),
        fomm_deps: Vec::new(),
        nested: Vec::new(),
    }
}

fn file(source: &str, destination: &str, priority: i32) -> FileItem {
    FileItem::File(FileRef {
        source: source.into(),
        destination: destination.into(),
        priority,
        always_install: false,
        install_if_usable: false,
    })
}

fn flags(pairs: &[(&str, &str)]) -> Option<ConditionFlagList> {
    Some(ConditionFlagList {
        flags: pairs
            .iter()
            .map(|(n, v)| ConditionFlag {
                name: (*n).into(),
                value: (*v).into(),
            })
            .collect(),
    })
}

#[test]
fn flag_write_then_read_and_remove() {
    let mut ctx = EvalContext::new();
    ctx.set_flag("a", "1");
    ctx.set_flag("b", "2");
    ctx.set_flag("a", "3");
    assert_eq!(ctx.flag("a"), Some(&"3".to_owned()));
    assert_eq!(ctx.flag("b"), Some(&"2".to_owned()));
    assert_eq!(ctx.flags.len(), 2);
    ctx.remove_flag("a");
    assert_eq!(ctx.flag("a"), None);
    assert_eq!(ctx.flag("b"), Some(&"2".to_owned()));
}

#[test]
fn file_state_exact_and_case_insensitive_lookup() {
    let mut ctx = EvalContext::new();
    ctx.set_file_state("Mod.ESP", FileState::Inactive);
    assert_eq!(ctx.file_state("Mod.ESP"), Some(FileState::Inactive));
    assert_eq!(ctx.file_state("mod.esp"), None);
    let dep = motux_fomod::condition::FileDependency {
        file: "MOD.esp".into(),
        state: FileState::Inactive,
    };
    assert!(dep.evaluate(&ctx));
}

#[test]
fn version_parsing_rules() {
    assert_eq!(parse_version("1.+2.x.3"), vec![1, 2, 3]);
    assert_eq!(parse_version("4294967295.4294967296"), vec![4294967295]);
    assert_eq!(parse_version(""), Vec::<u32>::new());
    assert_eq!(parse_version("+.-1.7"), vec![7]);
}

#[test]
fn version_order_laws_on_examples() {
    assert!(compare_versions("3.1", "3.1"));
    assert!(compare_versions("1.10", "1.9") || compare_versions("1.9", "1.10"));
    assert!(compare_versions("2.0", "1.5") && compare_versions("1.5", "1.0"));
    assert!(compare_versions("2.0", "1.0"));
    assert!(!check_version(None, "0"));
    assert!(check_version(Some("0"), ""));
}

#[test]
fn text_helpers() {
    assert!(str_eq_ignore_ascii_case("Data/ABC", "data/abc"));
    assert!(!str_eq_ignore_ascii_case("Ä", "ä"));
    assert!(str_lt("Apple", "Banana"));
    assert!(str_lt("App", "Apple"));
    assert!(!str_lt("b", "a"));
}

#[test]
fn empty_composite_law() {
    let ctx = EvalContext::new();
    let mut c = flag_dep("x", "y");
    c.flag_deps.clear();
    assert!(c.evaluate(&ctx));
    c.operator = Operator::Or;
    assert!(!c.evaluate(&ctx));
}

#[test]
fn dependency_type_pattern_in_context() {
    let td = TypeDescriptor {
        simple_type: None,
        dependency_type: Some(DependencyType {
            default_type: SimpleType {
                name: PluginType::Optional,
            },
            patterns: Some(TypePatterns {
                patterns: vec![TypePattern {
                    dependencies: flag_dep("hd", "on"),
                    plugin_type: SimpleType {
                        name: PluginType::Recommended,
                    },
                }],
            }),
        }),
    };
    let mut ctx = EvalContext::new();
    assert_eq!(td.resolved_type_in_context(&ctx), PluginType::Optional);
    ctx.set_flag("hd", "on");
    assert_eq!(td.resolved_type_in_context(&ctx), PluginType::Recommended);
    assert_eq!(td.resolved_type(), PluginType::Optional);

    let mut p = plugin("P");
    p.type_descriptor = Some(td);
    let g = group("G", GroupType::SelectExactlyOne, vec![plugin("Q"), p]);
    assert!(Installer::default_selections(&g).is_empty());
    assert_eq!(Installer::default_selections_in_context(&g, &ctx), vec![1]);
}

#[test]
fn hint_messages() {
    let h = ValidationHint::NeedExactly {
        group: "G".into(),
        required: 1,
        current: 0,
    };
    assert_eq!(h.message(), "G: need exactly 1, have 0 selected");
    let h = ValidationHint::NeedAtLeast {
        group: "G".into(),
        required: 1,
        current: 0,
    };
    assert_eq!(h.message(), "G: need at least 1, have 0 selected");
    let h = ValidationHint::ExceedsMax {
        group: "G".into(),
        max: 1,
        current: 12,
    };
    assert_eq!(h.message(), "G: at most 1 allowed, have 12 selected");
    let h = ValidationHint::NotUsableSelected {
        group: "G".into(),
        plugin: "P".into(),
    };
    assert_eq!(h.message(), "G: \"P\" is marked as not usable");
}

fn wizard_config() -> ModuleConfig {
    let mut not_usable = plugin("Broken");
    not_usable.type_descriptor = simple(PluginType::NotUsable);
    let mut setter = plugin("Setter");
    setter.condition_flags = flags(&[("show", "yes")]);
    config_with_steps(vec![
        step(
            "First",
            None,
            vec![
                group("One", GroupType::SelectExactlyOne, vec![plugin("A"), plugin("B")]),
                group("Many", GroupType::SelectAtMostOne, vec![plugin("C"), not_usable]),
                group("Flags", GroupType::SelectAny, vec![setter]),
            ],
        ),
        step(
            "Hidden",
            Some(flag_dep("show", "yes")),
            vec![group("Need", GroupType::SelectAtLeastOne, vec![plugin("D")])],
        ),
    ])
}

#[test]
fn completion_and_missing_selections() {
    let mut installer = Installer::new(wizard_config());
    let status = installer.completion_status();
    assert_eq!(status.total_steps, 2);
    assert_eq!(status.visible_steps, 1);
    assert_eq!(status.total_groups, 3);
    assert_eq!(status.satisfied_groups, 2);
    assert_eq!(installer.missing_selections(), vec![(0, 0)]);
    assert!(!installer.is_ready_to_install());

    installer.select(0, 0, vec![1]);
    installer.select(0, 2, vec![0]);
    let status = installer.completion_status();
    assert_eq!(status.visible_steps, 2);
    assert_eq!(status.total_groups, 4);
    assert_eq!(status.satisfied_groups, 3);
    assert_eq!(installer.missing_selections(), vec![(1, 0)]);
    installer.select(1, 0, vec![0]);
    assert!(installer.missing_selections().is_empty());
    assert!(installer.is_ready_to_install());
}

#[test]
fn validate_step_hints() {
    let mut installer = Installer::new(wizard_config());
    installer.select(0, 1, vec![0, 1]);
    let hints = installer.validate_step(0);
    assert_eq!(
        hints,
        vec![
            ValidationHint::NeedExactly {
                group: "One".into(),
                required: 1,
                current: 0
            },
            ValidationHint::ExceedsMax {
                group: "Many".into(),
                max: 1,
                current: 2
            },
            ValidationHint::NotUsableSelected {
                group: "Many".into(),
                plugin: "Broken".into()
            },
        ]
    );
    let hints = installer.validate_step(1);
    assert_eq!(
        hints,
        vec![ValidationHint::NeedAtLeast {
            group: "Need".into(),
            required: 1,
            current: 0
        }]
    );
    assert!(installer.validate_step(7).is_empty());
}

#[test]
fn flag_impacts_of_setters() {
    let installer = Installer::new(wizard_config());
    let impacts = installer.flag_impact_map();
    assert_eq!(impacts.len(), 1);
    assert_eq!(impacts[0].source_step, 0);
    assert_eq!(impacts[0].source_group, 2);
    assert_eq!(impacts[0].source_plugin, 0);
    assert_eq!(impacts[0].flag_name, "show");
    assert_eq!(impacts[0].affected_step, 1);
    assert_eq!(impacts[0].affected_step_name, "Hidden");
}

#[test]
fn checkpoint_and_rollback() {
    let mut installer = Installer::new(wizard_config());
    assert!(!installer.rollback());
    installer.select(0, 0, vec![0]);
    installer.checkpoint();
    assert_eq!(installer.history_len(), 1);
    installer.select(0, 0, vec![1]);
    installer.select(0, 2, vec![0]);
    assert_eq!(installer.context().flag("show"), Some(&"yes".to_owned()));
    assert!(installer.rollback());
    assert_eq!(installer.history_len(), 0);
    assert_eq!(installer.selections(), &vec![((0, 0), vec![0])]);
    assert_eq!(installer.context().flag("show"), None);
}

#[test]
fn conflicts_compare_lowercased_destinations() {
    let mut config = wizard_config();
    config.required_install_files = Some(FileList {
        items: vec![file("a.esp", "Data/A.esp", 0), file("b.esp", "", 0)],
    });
    if let Some(steps) = &mut config.install_steps {
        steps.steps[0].optional_file_groups.as_mut().unwrap().groups[0]
            .plugins
            .plugins[0]
            .files = Some(FileList {
            items: vec![file("other.esp", "data/a.ESP", 0), file("c.esp", "x", 0)],
        });
    }
    let installer = Installer::new(config);
    let conflicts = installer.detect_conflicts();
    assert_eq!(conflicts.len(), 1);
    assert_eq!(conflicts[0].destination, "data/a.esp");
    assert_eq!(
        conflicts[0].sources,
        vec![
            FileConflictSource::Required {
                source: "a.esp".into()
            },
            FileConflictSource::Plugin {
                step: 0,
                group: 0,
                plugin: 0,
                plugin_name: "A".into(),
                source: "other.esp".into()
            },
        ]
    );
}

#[test]
fn plan_preview_and_conditional_installs() {
    let mut config = wizard_config();
    config.required_install_files = Some(FileList {
        items: vec![file("base.esp", "Data", 5)],
    });
    config.conditional_file_installs = Some(ConditionalFileInstalls {
        patterns: ConditionalPatterns {
            patterns: vec![ConditionalPattern {
                dependencies: flag_dep("show", "yes"),
                files: FileList {
                    items: vec![file("extra.esp", "Data", 1)],
                },
            }],
        },
    });
    if let Some(steps) = &mut config.install_steps {
        steps.steps[0].optional_file_groups.as_mut().unwrap().groups[0]
            .plugins
            .plugins[1]
            .files = Some(FileList {
            items: vec![file("b.esp", "Data", 5)],
        });
    }
    let mut installer = Installer::new(config);
    installer.select(0, 0, vec![1]);
    installer.select(0, 2, vec![0]);
    let preview: Vec<String> = installer
        .preview_current()
        .operations
        .iter()
        .map(|op| op.source.clone())
        .collect();
    assert_eq!(preview, vec!["base.esp", "b.esp"]);
    let plan: Vec<String> = installer
        .resolve()
        .operations
        .iter()
        .map(|op| op.source.clone())
        .collect();
    assert_eq!(plan, vec!["extra.esp", "base.esp", "b.esp"]);
    assert_eq!(
        installer.preview_plugin(0, 0, 1),
        vec![FileOperation {
            source: "b.esp".into(),
            destination: "Data".into(),
            is_folder: false,
            priority: 5
        }]
    );
    assert!(installer.preview_plugin(0, 0, 9).is_empty());
}

#[test]
fn sort_orders_applied_on_construction() {
    let mut config = config_with_steps(vec![
        step("b", None, vec![]),
        step("a", None, vec![]),
        step("b", Some(flag_dep("x", "y")), vec![]),
    ]);
    config.install_steps.as_mut().unwrap().order = Some(SortOrder::Ascending);
    let mut g = group("G", GroupType::SelectAny, vec![plugin("z"), plugin("y")]);
    g.plugins.order = Some(SortOrder::Descending);
    config.install_steps.as_mut().unwrap().steps[0]
        .optional_file_groups
        .as_mut()
        .unwrap()
        .groups
        .push(g);
    let installer = Installer::new(config);
    assert_eq!(installer.step_name(0), Some("a"));
    assert_eq!(installer.step_name(1), Some("b"));
    assert_eq!(installer.step_name(2), Some("b"));
    assert!(installer.config().install_steps.as_ref().unwrap().steps[2].visible.is_some());
    assert_eq!(installer.group_name(1, 0), Some("G"));
    assert_eq!(installer.plugin_type_at(1, 0, 0), Some(PluginType::Optional));
    assert_eq!(installer.group_type_at(1, 0), Some(GroupType::SelectAny));
    assert_eq!(installer.step_name(3), None);
}

#[test]
fn getters_for_descriptions_and_images() {
    let mut p = plugin("P");
    p.description = Some("desc".into());
    p.image = Some(PluginImage {
        path: "img/p.png".into(),
    });
    let mut config = config_with_steps(vec![step(
        "S",
        None,
        vec![group("G", GroupType::SelectAny, vec![p, plugin("Q")])],
    )]);
    config.module_image = Some(ModuleImage {
        path: "banner.png".into(),
        show_image: false,
        show_fade: true,
        height: -1,
    });
    let installer = Installer::new(config);
    assert_eq!(installer.plugin_description(0, 0, 0), Some("desc"));
    assert_eq!(installer.plugin_description(0, 0, 1), None);
    assert_eq!(installer.plugin_image_path(0, 0, 0), Some("img/p.png"));
    assert_eq!(installer.module_image_path(), None);
    assert_eq!(installer.visible_steps().len(), 1);
}

#[test]
fn check_dependencies_evaluates() {
    let mut config = empty_config();
    config.module_dependencies = Some(flag_dep("game", "ok"));
    let mut installer = Installer::new(config);
    assert!(!installer.check_dependencies());
    installer.context_mut().set_flag("game", "ok");
    assert!(installer.check_dependencies());
}

#[test]
fn path_helpers() {
    assert_eq!(path_parts("a/b\\\\c//"), vec!["a", "b", "c"]);
    assert!(path_parts("").is_empty());
    let names = vec!["Textures".to_string(), "meshes".to_string()];
    assert_eq!(find_name_ignore_case(&names, "MESHES"), Some(1));
    assert_eq!(find_name_ignore_case(&names, "sounds"), None);
    let op = FileOperation {
        source: "a.esp".into(),
        destination: String::new(),
        is_folder: false,
        priority: 0,
    };
    assert_eq!(op.target_path(), "a.esp");
}

#[test]
fn defaults_are_valid_for_select_all() {
    let g = group(
        "G",
        GroupType::SelectAll,
        vec![plugin("A"), plugin("B")],
    );
    let d = Installer::default_selections(&g);
    assert!(Installer::validate_selection(&g, &d).is_ok());
}

#[test]
fn reselect_is_idempotent() {
    let mut installer = Installer::new(wizard_config());
    installer.select(0, 2, vec![0]);
    let flags_once = installer.context().flags.clone();
    let sels_once = installer.selections().clone();
    installer.select(0, 2, vec![0]);
    assert_eq!(installer.context().flag("show"), Some(&"yes".to_owned()));
    assert_eq!(installer.context().flags.len(), flags_once.len());
    assert_eq!(installer.selections(), &sels_once);
}
