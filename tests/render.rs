use static_docs::{
    Context, Dangling, Document, Entity, EntityKind, Relationship, RenderError, Section, Summary,
    docs_for_resource, docs_from_html, generate_context, join_path,
    relative_link, render_docs, resource_by_id, same_text, short_name_of, split_id,
};

fn entity(kind: EntityKind, id: &str) -> Entity {
    Entity { kind, id: id.to_string(), docs: None, relationships: None }
}

fn path_string(e: &Entity) -> String {
    join_path(&static_docs::path_for_resource(e).unwrap())
}

#[test]
fn path_for_resource() {
    let module = entity(EntityKind::Module, "test_crate::test_module");
    assert_eq!(
        join_path(&static_docs::path_for_resource(&module).unwrap()),
        "test_crate/test_module/index.html"
    );

    let strukt = entity(EntityKind::Struct, "test_crate::TestStruct");
    assert_eq!(
        join_path(&static_docs::path_for_resource(&strukt).unwrap()),
        "test_crate/struct.TestStruct.html"
    );
}

#[test]
fn crate_path_is_its_index() {
    let krate = entity(EntityKind::Crate, "test_crate");
    assert_eq!(path_string(&krate), "test_crate/index.html");
    assert_eq!(
        static_docs::path_for_resource(&krate).unwrap(),
        vec!["test_crate".to_string(), "index.html".to_string()]
    );
}

#[test]
fn container_path_has_one_directory_per_segment() {
    let module = entity(EntityKind::Module, "a::b::c");
    let path = static_docs::path_for_resource(&module).unwrap();
    assert_eq!(path.len(), 4);
    assert_eq!(path[3], "index.html");
}

#[test]
fn struct_path_uses_short_name() {
    let strukt = entity(EntityKind::Struct, "a::b::Thing");
    assert_eq!(path_string(&strukt), "a/b/struct.Thing.html");
    let top = entity(EntityKind::Struct, "Thing");
    assert_eq!(path_string(&top), "struct.Thing.html");
}

#[test]
fn distinct_ids_give_distinct_paths() {
    let a = entity(EntityKind::Module, "k::m");
    let b = entity(EntityKind::Struct, "k::m");
    let c = entity(EntityKind::Struct, "k::n");
    let d = entity(EntityKind::Crate, "k");
    let paths = vec![path_string(&a), path_string(&b), path_string(&c), path_string(&d)];
    for i in 0..paths.len() {
        for j in 0..paths.len() {
            if i != j {
                assert_ne!(paths[i], paths[j]);
            }
        }
    }
}

#[test]
fn unsupported_kind_is_an_error() {
    let e = entity(EntityKind::Other("enum".to_string()), "k::E");
    assert_eq!(static_docs::path_for_resource(&e), Err(RenderError::UnsupportedKind("enum".to_string())));
}

#[test]
fn split_on_separator() {
    assert_eq!(split_id("a::b::c"), vec!["a", "b", "c"]);
    assert_eq!(split_id(""), vec![""]);
    assert_eq!(split_id("a:::b"), vec!["a", ":b"]);
    assert_eq!(split_id("::a"), vec!["", "a"]);
    assert_eq!(split_id("a::"), vec!["a", ""]);
    assert_eq!(short_name_of("a::b::Thing"), "Thing");
}

#[test]
fn texts_compare_by_characters() {
    assert!(same_text("module", "module"));
    assert!(!same_text("module", "modules"));
    assert!(!same_text("crate", "crane"));
}

#[test]
fn kinds_read_from_tags() {
    assert_eq!(EntityKind::from_tag("crate"), EntityKind::Crate);
    assert_eq!(EntityKind::from_tag("module"), EntityKind::Module);
    assert_eq!(EntityKind::from_tag("struct"), EntityKind::Struct);
    assert_eq!(EntityKind::from_tag("trait"), EntityKind::Other("trait".to_string()));
    assert_eq!(EntityKind::Module.tag(), "module");
    assert_eq!(EntityKind::Other("fn".to_string()).tag(), "fn");
}

#[test]
fn link_in_same_directory() {
    let module = entity(EntityKind::Module, "test_crate::test_module");
    let strukt = entity(EntityKind::Struct, "test_crate::test_module::TestStruct");
    assert_eq!(relative_link(&module, &strukt).unwrap(), "struct.TestStruct.html");
}

#[test]
fn link_ascends_and_descends() {
    let from = entity(EntityKind::Struct, "k::a::b::S");
    let to = entity(EntityKind::Module, "k::c");
    assert_eq!(relative_link(&from, &to).unwrap(), "../../c/index.html");
    let from = entity(EntityKind::Crate, "k");
    let to = entity(EntityKind::Struct, "k::m::T");
    assert_eq!(relative_link(&from, &to).unwrap(), "m/struct.T.html");
    let from = entity(EntityKind::Module, "k::m");
    let to = entity(EntityKind::Crate, "k");
    assert_eq!(relative_link(&from, &to).unwrap(), "../index.html");
}

#[test]
fn link_round_trips() {
    let from = entity(EntityKind::Module, "k::a::b");
    let to = entity(EntityKind::Struct, "k::c::T");
    let link = relative_link(&from, &to).unwrap();
    let mut dir = static_docs::path_for_resource(&from).unwrap();
    dir.pop();
    for part in link.split('/') {
        if part == ".." {
            dir.pop();
        } else {
            dir.push(part.to_string());
        }
    }
    assert_eq!(dir, static_docs::path_for_resource(&to).unwrap());
}

#[test]
fn link_from_unsupported_kind_fails() {
    let from = entity(EntityKind::Other("enum".to_string()), "k::E");
    let to = entity(EntityKind::Crate, "k");
    assert_eq!(relative_link(&from, &to), Err(RenderError::UnsupportedKind("enum".to_string())));
    assert_eq!(relative_link(&to, &from), Err(RenderError::UnsupportedKind("enum".to_string())));
}

#[test]
fn docs_are_converted() {
    let mut e = entity(EntityKind::Crate, "k");
    e.docs = Some("# Title\n\nSome *text*.".to_string());
    let html = docs_for_resource(&e).unwrap();
    assert_eq!(html, "<h1>Title</h1>\n<p>Some <em>text</em>.</p>\n");
    assert_eq!(docs_for_resource(&e), Some(html));
}

#[test]
fn absent_or_empty_docs_give_nothing() {
    let mut e = entity(EntityKind::Crate, "k");
    assert_eq!(docs_for_resource(&e), None);
    e.docs = Some(String::new());
    assert_eq!(docs_for_resource(&e), None);
}

#[test]
fn empty_html_is_no_docs() {
    assert_eq!(docs_from_html(String::new()), None);
    assert_eq!(docs_from_html("<p>x</p>".to_string()), Some("<p>x</p>".to_string()));
}

#[test]
fn lookup_finds_first_match() {
    let mut first = entity(EntityKind::Struct, "k::S");
    first.docs = Some("one".to_string());
    let mut second = entity(EntityKind::Struct, "k::S");
    second.docs = Some("two".to_string());
    let doc = Document {
        primary: entity(EntityKind::Crate, "k"),
        included: vec![entity(EntityKind::Module, "k::m"), first.clone(), second],
    };
    assert_eq!(resource_by_id(&doc, "k::S"), Some(&first));
    assert_eq!(resource_by_id(&doc, "k::T"), None);
    assert_eq!(resource_by_id(&doc, "k"), None);
}

fn module_document(targets: Vec<&str>) -> Document {
    let mut module = entity(EntityKind::Module, "test_crate::test_module");
    module.relationships = Some(vec![Relationship {
        name: "items".to_string(),
        targets: targets.into_iter().map(|t| t.to_string()).collect(),
    }]);
    let mut strukt = entity(EntityKind::Struct, "test_crate::test_module::TestStruct");
    strukt.docs = Some("A struct.".to_string());
    let mut krate = entity(EntityKind::Crate, "test_crate");
    krate.docs = Some("The crate.".to_string());
    Document { primary: krate, included: vec![module, strukt] }
}

#[test]
fn context_lists_related_items() {
    let doc = module_document(vec!["test_crate::test_module::TestStruct"]);
    let (context, warnings) = generate_context(&doc, &doc.included[0]).unwrap();
    assert!(warnings.is_empty());
    assert_eq!(
        context,
        Context {
            kind: "module".to_string(),
            name: "test_module".to_string(),
            docs: None,
            sections: Some(vec![Section {
                name: "items".to_string(),
                items: vec![Summary {
                    name: "TestStruct".to_string(),
                    link: "struct.TestStruct.html".to_string(),
                    docs: Some("<p>A struct.</p>\n".to_string()),
                }],
            }]),
        }
    );
}

#[test]
fn dangling_target_is_skipped_with_warning() {
    let doc = module_document(vec![
        "test_crate::test_module::Missing",
        "test_crate::test_module::TestStruct",
    ]);
    let (context, warnings) = generate_context(&doc, &doc.included[0]).unwrap();
    assert_eq!(
        warnings,
        vec![Dangling {
            missing: "test_crate::test_module::Missing".to_string(),
            referrer: "test_crate::test_module".to_string(),
        }]
    );
    let sections = context.sections.unwrap();
    assert_eq!(sections.len(), 1);
    assert_eq!(sections[0].items.len(), 1);
    assert_eq!(sections[0].items[0].link, "struct.TestStruct.html");
}

#[test]
fn section_with_no_resolved_targets_is_empty() {
    let doc = module_document(vec!["nowhere::X"]);
    let (context, warnings) = generate_context(&doc, &doc.included[0]).unwrap();
    assert_eq!(warnings.len(), 1);
    assert_eq!(
        context.sections,
        Some(vec![Section { name: "items".to_string(), items: vec![] }])
    );
}

#[test]
fn context_without_relationships_has_no_sections() {
    let doc = module_document(vec![]);
    let (context, _) = generate_context(&doc, &doc.primary).unwrap();
    assert_eq!(context.kind, "crate");
    assert_eq!(context.name, "test_crate");
    assert_eq!(context.docs, Some("<p>The crate.</p>\n".to_string()));
    assert_eq!(context.sections, None);
}

#[test]
fn tree_renders_every_entity_despite_dangling_target() {
    let doc = module_document(vec![
        "test_crate::test_module::Missing",
        "test_crate::test_module::TestStruct",
    ]);
    let pages = render_docs(&doc).unwrap();
    let paths: Vec<String> = pages.iter().map(|p| join_path(&p.path)).collect();
    assert_eq!(
        paths,
        vec![
            "doc2/test_crate/index.html",
            "doc2/test_crate/test_module/index.html",
            "doc2/test_crate/test_module/struct.TestStruct.html",
        ]
    );
    assert_eq!(pages[1].warnings.len(), 1);
    assert!(pages[0].warnings.is_empty());
}

#[test]
fn tree_stops_at_unsupported_kind() {
    let mut doc = module_document(vec![]);
    doc.included.push(entity(EntityKind::Other("enum".to_string()), "test_crate::E"));
    assert_eq!(render_docs(&doc), Err(RenderError::UnsupportedKind("enum".to_string())));
}

#[test]
fn context_fails_on_unsupported_target() {
    let mut doc = module_document(vec!["test_crate::E"]);
    doc.included.push(entity(EntityKind::Other("enum".to_string()), "test_crate::E"));
    assert_eq!(
        generate_context(&doc, &doc.included[0]),
        Err(RenderError::UnsupportedKind("enum".to_string()))
    );
}
