use motux_fomod::condition::EvalContext;
use motux_fomod::config::{
    DependencyType, FileItem, FileRef, Plugin, PluginType, SimpleType, TypeDescriptor,
};

#[test]
fn plugin_type_defaults_to_optional() {
    let plugin = Plugin {
        name: "P".into(),
        description: None,
        image: None,
        type_descriptor: None,
        condition_flags: None,
        files: None,
    };
    assert_eq!(plugin.plugin_type(), PluginType::Optional);
}

#[test]
fn type_descriptor_simple_takes_precedence() {
    // If both simple_type and dependency_type exist, simple_type wins
    let td = TypeDescriptor {
        simple_type: Some(SimpleType {
            name: PluginType::Required,
        }),
        dependency_type: Some(DependencyType {
            default_type: SimpleType {
                name: PluginType::NotUsable,
            },
            patterns: None,
        }),
    };
    assert_eq!(td.resolved_type(), PluginType::Required);

    let ctx = EvalContext::new();
    assert_eq!(td.resolved_type_in_context(&ctx), PluginType::Required);
}

#[test]
fn type_descriptor_dependency_default() {
    let td = TypeDescriptor {
        simple_type: None,
        dependency_type: Some(DependencyType {
            default_type: SimpleType {
                name: PluginType::NotUsable,
            },
            patterns: None,
        }),
    };
    assert_eq!(td.resolved_type(), PluginType::NotUsable);
}

#[test]
fn type_descriptor_none_defaults_optional() {
    let td = TypeDescriptor {
        simple_type: None,
        dependency_type: None,
    };
    assert_eq!(td.resolved_type(), PluginType::Optional);
}

#[test]
fn file_item_is_folder() {
    let file = FileItem::File(FileRef {
        source: "a.esp".into(),
        destination: String::new(),
        priority: 0,
        always_install: false,
        install_if_usable: false,
    });
    assert!(!file.is_folder());

    let folder = FileItem::Folder(FileRef {
        source: "dir".into(),
        destination: String::new(),
        priority: 0,
        always_install: false,
        install_if_usable: false,
    });
    assert!(folder.is_folder());
}

#[test]
fn file_item_file_ref() {
    let file = FileItem::File(FileRef {
        source: "a.esp".into(),
        destination: "Data".into(),
        priority: 5,
        always_install: true,
        install_if_usable: false,
    });
    let r = file.file_ref();
    assert_eq!(r.source, "a.esp");
    assert_eq!(r.destination, "Data");
    assert_eq!(r.priority, 5);
    assert!(r.always_install);
}
