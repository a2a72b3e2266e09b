use rustle::vtable::{
    configuration_of, expand, method_presence_name, presence_name_of, unraw_name, vtable, Attr, Expansion,
    Member, Method, VtableError, VtableItem,
};

fn method(name: &str, attrs: &[Option<&str>]) -> Member {
    Member::Method(Method {
        name: name.to_string(),
        attrs: attrs.iter().map(|ident| Attr { path_ident: ident.map(str::to_string) }).collect(),
    })
}

fn names(presence: &[rustle::vtable::Presence]) -> Vec<(String, usize, Vec<usize>)> {
    presence.iter().map(|p| (p.name.clone(), p.member, p.cfg.clone())).collect()
}

#[test]
fn trait_gets_a_default_per_method() {
    let item = VtableItem::Trait(vec![
        method("newctx", &[]),
        Member::Const("LIMIT".to_string()),
        method("dupctx", &[Some("doc"), Some("cfg"), None, Some("cfg_attr")]),
    ]);
    match expand(&item) {
        Ok(Expansion::Trait { presence }) => assert_eq!(
            names(&presence),
            vec![("HAS_NEWCTX".to_string(), 0, vec![]), ("HAS_DUPCTX".to_string(), 2, vec![1, 3])]
        ),
        _ => panic!("a trait expands"),
    }
}

#[test]
fn implementation_overrides_written_methods_and_tags_parameter_macros() {
    let item = VtableItem::Impl {
        of_trait: true,
        members: vec![
            method("r#type", &[]),
            Member::Macro(Some("gettable_params".to_string())),
            Member::Other,
            method("squeeze", &[Some("cfg")]),
            Member::Macro(Some("settable_ctx_params".to_string())),
            Member::Const("LIMIT".to_string()),
        ],
    };
    match expand(&item) {
        Ok(Expansion::Impl { presence, tagged }) => {
            assert_eq!(
                names(&presence),
                vec![("HAS_TYPE".to_string(), 0, vec![]), ("HAS_SQUEEZE".to_string(), 3, vec![0])]
            );
            assert_eq!(tagged, vec![1, 4]);
        }
        _ => panic!("a trait implementation expands"),
    }
}

#[test]
fn handwritten_metadata_and_foreign_macros_are_refused() {
    let marker = VtableItem::Impl {
        of_trait: true,
        members: vec![method("init", &[]), Member::Const("__VTABLE".to_string())],
    };
    assert_eq!(expand(&marker).err(), Some(VtableError::GeneratedOverride(1)));
    let flag = VtableItem::Impl { of_trait: true, members: vec![Member::Const("HAS_DUPCTX".to_string())] };
    assert_eq!(expand(&flag).err(), Some(VtableError::GeneratedOverride(0)));
    let foreign = VtableItem::Impl {
        of_trait: true,
        members: vec![Member::Macro(Some("my_methods".to_string())), Member::Const("HAS_X".to_string())],
    };
    assert_eq!(expand(&foreign).err(), Some(VtableError::UnsupportedMacro(0)));
    let pathless = VtableItem::Impl { of_trait: true, members: vec![Member::Macro(None)] };
    assert_eq!(expand(&pathless).err(), Some(VtableError::UnsupportedMacro(0)));
    // A constant that only resembles the metadata is fine.
    let similar = VtableItem::Impl {
        of_trait: true,
        members: vec![Member::Const("HAS".to_string()), Member::Const("__VTABLES".to_string())],
    };
    assert!(expand(&similar).is_ok());
}

#[test]
fn other_items_and_arguments_are_refused() {
    assert_eq!(expand(&VtableItem::Other).err(), Some(VtableError::NotTraitOrImpl));
    let inherent = VtableItem::Impl { of_trait: false, members: vec![method("new", &[])] };
    assert_eq!(expand(&inherent).err(), Some(VtableError::NotTraitOrImpl));
    let item = VtableItem::Trait(Vec::new());
    assert_eq!(vtable(true, &item).err(), Some(VtableError::Arguments));
    assert!(vtable(false, &item).is_ok());
}

#[test]
fn presence_names_follow_the_method_names() {
    assert_eq!(unraw_name("r#match"), "match");
    assert_eq!(unraw_name("match"), "match");
    assert_eq!(unraw_name("r"), "r");
    assert_eq!(presence_name_of("GET_PARAM"), "HAS_GET_PARAM");
    assert_eq!(method_presence_name("get_param"), "HAS_GET_PARAM");
    assert_eq!(method_presence_name("r#get_param"), "HAS_GET_PARAM");
    assert_eq!(method_presence_name("straße"), "HAS_STRASSE");
    let attrs = vec![
        Attr { path_ident: Some("cfg_attr".to_string()) },
        Attr { path_ident: Some("cfgx".to_string()) },
        Attr { path_ident: None },
        Attr { path_ident: Some("cfg".to_string()) },
    ];
    assert_eq!(configuration_of(&attrs), vec![0, 3]);
}

#[test]
fn trait_default_and_implementation_override_share_names() {
    let declared = VtableItem::Trait(vec![method("dupctx", &[]), method("r#type", &[])]);
    let implemented = VtableItem::Impl { of_trait: true, members: vec![method("r#type", &[]), method("dupctx", &[])] };
    let (Ok(Expansion::Trait { presence: defaults }), Ok(Expansion::Impl { presence: overrides, .. })) =
        (expand(&declared), expand(&implemented))
    else {
        panic!("both expand");
    };
    assert_eq!(defaults[0].name, overrides[1].name);
    assert_eq!(defaults[1].name, overrides[0].name);
}
