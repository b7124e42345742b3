use backend_core::rbxm::{dom_find_scripts, InstanceNode, SourceProperty};

fn plain(name: &str, class: &str, children: Vec<InstanceNode>) -> InstanceNode {
    InstanceNode {
        name: name.to_string(),
        class: class.to_string(),
        source: SourceProperty::Missing,
        children,
    }
}

fn script(name: &str, class: &str, source: SourceProperty) -> InstanceNode {
    InstanceNode {
        name: name.to_string(),
        class: class.to_string(),
        source,
        children: vec![],
    }
}

#[test]
fn finds_scripts_with_ancestor_paths() {
    let roots = vec![plain(
        "Workspace",
        "Folder",
        vec![
            script(
                "Main",
                "Script",
                SourceProperty::Text("print(1)".to_string()),
            ),
            plain(
                "Tools",
                "Folder",
                vec![script(
                    "Helper",
                    "ModuleScript",
                    SourceProperty::Text("return {}".to_string()),
                )],
            ),
        ],
    )];
    let scripts = dom_find_scripts(&roots).unwrap();
    assert_eq!(
        scripts,
        vec![
            ("Workspace".to_string(), "print(1)".to_string()),
            ("Workspace.Tools".to_string(), "return {}".to_string()),
        ]
    );
}

#[test]
fn roots_themselves_are_not_searched() {
    // a script class at the root is not recorded; only descendants are
    let roots = vec![script(
        "Main",
        "Script",
        SourceProperty::Text("print(1)".to_string()),
    )];
    assert_eq!(dom_find_scripts(&roots).unwrap(), vec![]);
}

#[test]
fn non_text_sources_are_passed_over() {
    let roots = vec![plain(
        "Workspace",
        "Folder",
        vec![
            script("Odd", "LocalScript", SourceProperty::NotText),
            script(
                "Main",
                "Script",
                SourceProperty::Text("print(2)".to_string()),
            ),
        ],
    )];
    let scripts = dom_find_scripts(&roots).unwrap();
    assert_eq!(
        scripts,
        vec![("Workspace".to_string(), "print(2)".to_string())]
    );
}

#[test]
fn missing_source_property_fails_the_search() {
    let roots = vec![plain(
        "Workspace",
        "Folder",
        vec![script("Broken", "Script", SourceProperty::Missing)],
    )];
    assert!(dom_find_scripts(&roots).is_none());
}

#[test]
fn non_script_classes_are_ignored() {
    let roots = vec![plain(
        "Workspace",
        "Folder",
        vec![plain("Part", "BasePart", vec![])],
    )];
    assert_eq!(dom_find_scripts(&roots).unwrap(), vec![]);
}
