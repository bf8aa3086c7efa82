use motux_fomod::condition::EvalContext;
use motux_fomod::config::{
    ConditionFlag, ConditionFlagList, FileItem, FileList, FileRef, Group, GroupList, GroupType,
    InstallStep, InstallSteps, ModuleConfig, ModuleName, Plugin, PluginList, PluginType,
    SimpleType, SortOrder, TypeDescriptor,
};
use motux_fomod::installer::layout::apply_sort_order;
use motux_fomod::installer::selection::SelectionError;
use motux_fomod::installer::Installer;

fn minimal_config() -> ModuleConfig {
    ModuleConfig {
        module_name: ModuleName {
            position: None,
            value: "T".into(),
        },
        module_image: None,
        module_dependencies: None,
        required_install_files: None,
        install_steps: None,
        conditional_file_installs: None,
    }
}

fn file(source: &str, destination: &str, priority: i32) -> FileItem {
    FileItem::File(FileRef {
        source: source.into(),
        destination: destination.into(),
        priority,
        always_install: false,
        install_if_usable: false,
    })
}

fn optional_type() -> Option<TypeDescriptor> {
    Some(TypeDescriptor {
        simple_type: Some(SimpleType {
            name: PluginType::Optional,
        }),
        dependency_type: None,
    })
}

fn single_step_config(group: Group) -> ModuleConfig {
    let mut config = minimal_config();
    config.install_steps = Some(InstallSteps {
        order: None,
        steps: vec![InstallStep {
            name: "S".into(),
            visible: None,
            optional_file_groups: Some(GroupList {
                order: None,
                groups: vec![group],
            }),
        }],
    });
    config
}

#[test]
fn sort_order_ascending_sorts() {
    let mut items = vec!["Zebra", "Apple", "Mango"];
    apply_sort_order(&mut items, Some(SortOrder::Ascending));
    assert_eq!(items, vec!["Apple", "Mango", "Zebra"]);
}

#[test]
fn sort_order_descending_sorts() {
    let mut items = vec!["Apple", "Mango", "Zebra"];
    apply_sort_order(&mut items, Some(SortOrder::Descending));
    assert_eq!(items, vec!["Zebra", "Mango", "Apple"]);
}

#[test]
fn sort_order_explicit_preserves() {
    let mut items = vec!["B", "A", "C"];
    apply_sort_order(&mut items, Some(SortOrder::Explicit));
    assert_eq!(items, vec!["B", "A", "C"]);
}

#[test]
fn sort_order_none_preserves() {
    let mut items = vec!["B", "A", "C"];
    apply_sort_order(&mut items, None);
    assert_eq!(items, vec!["B", "A", "C"]);
}

fn make_group(gtype: GroupType, count: usize) -> Group {
    let plugins: Vec<_> = (0..count)
        .map(|i| Plugin {
            name: format!("P{i}"),
            description: None,
            image: None,
            type_descriptor: None,
            condition_flags: None,
            files: None,
        })
        .collect();
    Group {
        name: "G".into(),
        group_type: gtype,
        plugins: PluginList {
            order: None,
            plugins,
        },
    }
}

#[test]
fn validate_exactly_one() {
    let g = make_group(GroupType::SelectExactlyOne, 3);
    assert!(Installer::validate_selection(&g, &[0]).is_ok());
    assert!(Installer::validate_selection(&g, &[]).is_err());
    assert!(Installer::validate_selection(&g, &[0, 1]).is_err());
}

#[test]
fn validate_at_most_one() {
    let g = make_group(GroupType::SelectAtMostOne, 3);
    assert!(Installer::validate_selection(&g, &[]).is_ok());
    assert!(Installer::validate_selection(&g, &[1]).is_ok());
    assert!(Installer::validate_selection(&g, &[0, 1]).is_err());
}

#[test]
fn validate_at_least_one() {
    let g = make_group(GroupType::SelectAtLeastOne, 3);
    assert!(Installer::validate_selection(&g, &[]).is_err());
    assert!(Installer::validate_selection(&g, &[0]).is_ok());
    assert!(Installer::validate_selection(&g, &[0, 1, 2]).is_ok());
}

#[test]
fn validate_select_all() {
    let g = make_group(GroupType::SelectAll, 2);
    assert!(Installer::validate_selection(&g, &[0]).is_err());
    assert!(Installer::validate_selection(&g, &[0, 1]).is_ok());
}

#[test]
fn validate_select_any() {
    let g = make_group(GroupType::SelectAny, 3);
    assert!(Installer::validate_selection(&g, &[]).is_ok());
    assert!(Installer::validate_selection(&g, &[0, 1, 2]).is_ok());
}

#[test]
fn validate_out_of_bounds() {
    let g = make_group(GroupType::SelectAny, 2);
    assert_eq!(
        Installer::validate_selection(&g, &[2]),
        Err(SelectionError::OutOfBounds)
    );
    assert_eq!(
        Installer::validate_selection(&g, &[99]),
        Err(SelectionError::OutOfBounds)
    );
}

fn make_group_typed(gtype: GroupType, types: Vec<PluginType>) -> Group {
    let plugins: Vec<_> = types
        .into_iter()
        .enumerate()
        .map(|(i, pt)| Plugin {
            name: format!("P{i}"),
            description: None,
            image: None,
            type_descriptor: Some(TypeDescriptor {
                simple_type: Some(SimpleType { name: pt }),
                dependency_type: None,
            }),
            condition_flags: None,
            files: None,
        })
        .collect();
    Group {
        name: "G".into(),
        group_type: gtype,
        plugins: PluginList {
            order: None,
            plugins,
        },
    }
}

#[test]
fn defaults_exactly_one_picks_first_required() {
    let g = make_group_typed(
        GroupType::SelectExactlyOne,
        vec![
            PluginType::Optional,
            PluginType::Required,
            PluginType::Required,
        ],
    );
    assert_eq!(Installer::default_selections(&g), vec![1]);
}

#[test]
fn defaults_exactly_one_picks_recommended() {
    let g = make_group_typed(
        GroupType::SelectExactlyOne,
        vec![PluginType::Optional, PluginType::Recommended],
    );
    assert_eq!(Installer::default_selections(&g), vec![1]);
}

#[test]
fn defaults_exactly_one_all_optional_empty() {
    let g = make_group_typed(
        GroupType::SelectExactlyOne,
        vec![PluginType::Optional, PluginType::Optional],
    );
    assert!(Installer::default_selections(&g).is_empty());
}

#[test]
fn defaults_select_all_returns_all() {
    let g = make_group_typed(
        GroupType::SelectAll,
        vec![
            PluginType::Optional,
            PluginType::Optional,
            PluginType::Optional,
        ],
    );
    assert_eq!(Installer::default_selections(&g), vec![0, 1, 2]);
}

#[test]
fn defaults_any_picks_required_and_recommended() {
    let g = make_group_typed(
        GroupType::SelectAny,
        vec![
            PluginType::Optional,
            PluginType::Required,
            PluginType::Optional,
            PluginType::Recommended,
        ],
    );
    assert_eq!(Installer::default_selections(&g), vec![1, 3]);
}

fn flag_plugin(name: &str, flag: &str, value: &str) -> Plugin {
    Plugin {
        name: name.into(),
        description: None,
        image: None,
        type_descriptor: optional_type(),
        condition_flags: Some(ConditionFlagList {
            flags: vec![ConditionFlag {
                name: flag.into(),
                value: value.into(),
            }],
        }),
        files: None,
    }
}

#[test]
fn select_clears_group_flags() {
    let group = Group {
        name: "G".into(),
        group_type: GroupType::SelectExactlyOne,
        plugins: PluginList {
            order: None,
            plugins: vec![flag_plugin("A", "choice", "a"), flag_plugin("B", "choice", "b")],
        },
    };
    let config = single_step_config(group);
    let mut installer = Installer::new(config);

    installer.select(0, 0, vec![0]);
    assert_eq!(installer.context().flag("choice"), Some(&"a".to_owned()));

    installer.select(0, 0, vec![1]);
    assert_eq!(installer.context().flag("choice"), Some(&"b".to_owned()));
}

#[test]
fn resolve_empty_no_config() {
    let installer = Installer::new(minimal_config());
    assert!(installer.resolve().operations.is_empty());
}

#[test]
fn resolve_priority_ordering() {
    let mut config = minimal_config();
    config.required_install_files = Some(FileList {
        items: vec![
            file("low.esp", "Data", -10),
            file("high.esp", "Data", 100),
            file("mid.esp", "Data", 50),
        ],
    });
    let installer = Installer::new(config);
    let plan = installer.resolve();
    let sources: Vec<&str> = plan
        .operations
        .iter()
        .map(|op| op.source.as_str())
        .collect();
    assert_eq!(sources, vec!["low.esp", "mid.esp", "high.esp"]);
}

#[test]
fn resolve_skips_invalid_selection() {
    let group = Group {
        name: "G".into(),
        group_type: GroupType::SelectAny,
        plugins: PluginList {
            order: None,
            plugins: vec![Plugin {
                name: "A".into(),
                description: None,
                image: None,
                type_descriptor: optional_type(),
                condition_flags: None,
                files: Some(FileList {
                    items: vec![file("a.esp", "Data", 0)],
                }),
            }],
        },
    };
    let mut installer = Installer::new(single_step_config(group));
    installer.select(0, 0, vec![99]);
    assert!(installer.resolve().operations.is_empty());
}

#[test]
fn check_deps_none_means_ok() {
    assert!(Installer::new(minimal_config()).check_dependencies());
}

#[test]
fn visible_steps_empty_when_no_steps() {
    assert!(Installer::new(minimal_config()).visible_steps().is_empty());
}

#[test]
fn selection_error_display() {
    assert_eq!(
        SelectionError::OutOfBounds.message(),
        "plugin index out of bounds"
    );
    assert_eq!(
        SelectionError::InvalidCount {
            expected: "exactly 1",
            got: 3
        }
        .message(),
        "expected exactly 1 selections, got 3"
    );
}

#[test]
fn with_context_preserves() {
    let mut ctx = EvalContext::new();
    ctx.set_flag("pre", "val");
    ctx.game_version = Some("1.5".into());

    let installer = Installer::with_context(minimal_config(), ctx);
    assert_eq!(installer.context().flag("pre"), Some(&"val".to_owned()));
    assert_eq!(installer.context().game_version, Some("1.5".to_owned()));
}
