use stylecs::{
    font_size, not_inheritable, padding, text_color, validate_identifier, AnyComponent,
    ComponentValue, Interner, InvalidIdentifier, MergeRule, Name, Object, Padding, Style,
};

#[test]
fn basics() {
    let mut interner = Interner::new();
    let a = Style::new()
        .with(font_size(&mut interner, 1))
        .with(not_inheritable(&mut interner));
    let b = Style::new().with(font_size(&mut interner, 2));
    let fs_name = Name::private(&mut interner, "font_size").unwrap();
    let ni_name = Name::private(&mut interner, "not_inheritable").unwrap();

    let ab = a.clone().merged_with(&b);
    assert_eq!(ab.get_by_name(&fs_name).unwrap().as_int(), Some(1));
    assert!(ab.get_by_name(&ni_name).is_some());
    let ba = b.merged_with(&a);
    assert_eq!(ba.get_by_name(&fs_name).unwrap().as_int(), Some(2));
    let inherited = Style::new().inherited_from(&a);
    assert_eq!(inherited.get_by_name(&fs_name).unwrap().as_int(), Some(1));
    assert!(inherited.get_by_name(&ni_name).is_none());

    assert_eq!(
        Style::new().get_or_default(font_size(&mut interner, 0)).as_int(),
        Some(0)
    );
}

#[test]
fn names() {
    let mut interner = Interner::new();
    assert_eq!(
        *font_size(&mut interner, 1).name(),
        Name::private(&mut interner, "font_size").unwrap()
    );
    assert_eq!(
        *not_inheritable(&mut interner).name(),
        Name::private(&mut interner, "not_inheritable").unwrap()
    );
}

#[test]
fn insert_get_round_trip() {
    let mut interner = Interner::new();
    let mut style = Style::new();
    style.push(font_size(&mut interner, 42));
    let fs_name = Name::private(&mut interner, "font_size").unwrap();
    let stored = style.get_by_name(&fs_name).unwrap();
    assert_eq!(stored.as_int(), Some(42));
    assert!(stored.inherited());
    assert_eq!(stored.rule(), MergeRule::KeepSelf);
}

#[test]
fn insert_replaces_same_name() {
    let mut interner = Interner::new();
    let mut style = Style::new();
    style.push(font_size(&mut interner, 10));
    style.push(font_size(&mut interner, 20));
    let fs_name = Name::private(&mut interner, "font_size").unwrap();
    assert_eq!(style.len(), 1);
    assert_eq!(style.get_by_name(&fs_name).unwrap().as_int(), Some(20));
}

#[test]
fn merged_with_is_left_biased_and_total() {
    // Style A holds X=1; style B holds X=2 and Y=5. The merge keeps A's
    // X and copies B's Y in.
    let mut interner = Interner::new();
    let x = Name::private(&mut interner, "x").unwrap();
    let y = Name::private(&mut interner, "y").unwrap();
    let a = Style::new().with(AnyComponent::new(
        x.clone(),
        false,
        MergeRule::KeepSelf,
        ComponentValue::Int(1),
    ));
    let b = Style::new()
        .with(AnyComponent::new(
            x.clone(),
            false,
            MergeRule::KeepSelf,
            ComponentValue::Int(2),
        ))
        .with(AnyComponent::new(
            y.clone(),
            false,
            MergeRule::KeepSelf,
            ComponentValue::Int(5),
        ));
    let merged = a.merged_with(&b);
    assert_eq!(merged.len(), 2);
    assert_eq!(merged.get_by_name(&x).unwrap().as_int(), Some(1));
    assert_eq!(merged.get_by_name(&y).unwrap().as_int(), Some(5));
}

#[test]
fn inherited_from_is_selective() {
    // The parent holds inheritable F=12 and a non-inheritable marker P;
    // inheriting into an empty style pulls F and drops P.
    let mut interner = Interner::new();
    let f = Name::private(&mut interner, "f").unwrap();
    let p = Name::private(&mut interner, "p").unwrap();
    let parent = Style::new()
        .with(AnyComponent::new(
            f.clone(),
            true,
            MergeRule::KeepSelf,
            ComponentValue::Int(12),
        ))
        .with(AnyComponent::new(
            p.clone(),
            false,
            MergeRule::KeepSelf,
            ComponentValue::Unit,
        ));
    let child = Style::new().inherited_from(&parent);
    assert_eq!(child.len(), 1);
    assert_eq!(child.get_by_name(&f).unwrap().as_int(), Some(12));
    assert!(child.get_by_name(&p).is_none());
}

#[test]
fn self_merge_is_idempotent() {
    let mut interner = Interner::new();
    let style = Style::new()
        .with(font_size(&mut interner, 7))
        .with(padding(
            &mut interner,
            Padding {
                left: Some(1),
                right: None,
                top: Some(3),
                bottom: None,
            },
        ));
    let fs_name = Name::private(&mut interner, "font_size").unwrap();
    let pad_name = Name::new(&mut interner, "gooey", "padding").unwrap();
    let merged = style.clone().merged_with(&style);
    assert_eq!(merged.len(), style.len());
    assert_eq!(merged.get_by_name(&fs_name).unwrap().as_int(), Some(7));
    assert_eq!(
        merged.get_by_name(&pad_name).unwrap().as_sides(),
        style.get_by_name(&pad_name).unwrap().as_sides()
    );
}

#[test]
fn storage_order_is_strictly_increasing() {
    let mut interner = Interner::new();
    let mut style = Style::new();
    let names = ["zeta", "alpha", "mid", "beta", "omega", "kappa"];
    for text in names {
        let name = Name::private(&mut interner, text).unwrap();
        style.push(AnyComponent::new(
            name,
            false,
            MergeRule::KeepSelf,
            ComponentValue::Unit,
        ));
    }
    assert_eq!(style.len(), names.len());
    for i in 1..style.len() {
        let (previous, _) = style.component_at(i - 1);
        let (current, _) = style.component_at(i);
        assert!(previous.sorts_before(current));
    }
}

#[test]
fn clone_independence() {
    let mut interner = Interner::new();
    let original = Style::new().with(font_size(&mut interner, 11));
    let fs_name = Name::private(&mut interner, "font_size").unwrap();

    let mut copy = original.clone();
    copy.push(font_size(&mut interner, 99));

    assert_eq!(copy.get_by_name(&fs_name).unwrap().as_int(), Some(99));
    assert_eq!(original.get_by_name(&fs_name).unwrap().as_int(), Some(11));
}

#[test]
fn padding_merge_scenario() {
    // A base style holds FontSize(18) and Padding{left:10,right:10}.
    // Merging with a heading style holding Padding{top:10,bottom:10}
    // fills the unset sides; inheriting from a body style holding
    // inheritable FontSize(12) and TextColor(0xFF0000) leaves the font
    // size alone but pulls the text color in.
    let mut interner = Interner::new();
    let base = Style::new()
        .with(font_size(&mut interner, 18))
        .with(padding(
            &mut interner,
            Padding {
                left: Some(10),
                right: Some(10),
                top: None,
                bottom: None,
            },
        ));
    let heading = Style::new().with(padding(
        &mut interner,
        Padding {
            top: Some(10),
            bottom: Some(10),
            ..Padding::unset()
        },
    ));
    let h1 = base.merged_with(&heading);
    let pad_name = Name::new(&mut interner, "gooey", "padding").unwrap();
    assert_eq!(
        h1.get_by_name(&pad_name).unwrap().as_sides(),
        Some(Padding {
            left: Some(10),
            right: Some(10),
            top: Some(10),
            bottom: Some(10),
        })
    );

    let body = Style::new()
        .with(font_size(&mut interner, 12))
        .with(text_color(&mut interner, 0xFF0000));
    let h1 = h1.inherited_from(&body);
    let fs_name = Name::private(&mut interner, "font_size").unwrap();
    let tc_name = Name::private(&mut interner, "text_color").unwrap();
    assert_eq!(h1.get_by_name(&fs_name).unwrap().as_int(), Some(18));
    assert_eq!(h1.get_by_name(&tc_name).unwrap().as_int(), Some(0xFF0000));
}

#[test]
fn object_insert_returns_displaced() {
    let mut interner = Interner::new();
    let name = Name::private(&mut interner, "x").unwrap();
    let mut store = Object::new();
    let first = store.insert(
        name.clone(),
        AnyComponent::new(name.clone(), false, MergeRule::KeepSelf, ComponentValue::Int(1)),
    );
    assert!(first.is_none());
    let displaced = store.insert(
        name.clone(),
        AnyComponent::new(name.clone(), false, MergeRule::KeepSelf, ComponentValue::Int(2)),
    );
    assert_eq!(displaced.unwrap().as_int(), Some(1));
    assert_eq!(store.len(), 1);
    assert_eq!(store.get(&name).unwrap().as_int(), Some(2));
}

#[test]
fn large_store_lookups() {
    // Enough entries to drive the hybrid search through its binary
    // halving phase before the linear scan.
    let mut interner = Interner::new();
    let mut style = Style::new();
    let mut names = Vec::new();
    for i in 0..40 {
        let text = format!("component_{i:02}");
        let name = Name::private(&mut interner, &text).unwrap();
        names.push(name.clone());
        style.push(AnyComponent::new(
            name,
            false,
            MergeRule::KeepSelf,
            ComponentValue::Int(i),
        ));
    }
    assert_eq!(style.len(), 40);
    for (i, name) in names.iter().enumerate() {
        assert_eq!(style.get_by_name(name).unwrap().as_int(), Some(i as i64));
    }
    let absent = Name::private(&mut interner, "missing").unwrap();
    assert!(style.get_by_name(&absent).is_none());
}

#[test]
fn merging_with_empty_styles() {
    let mut interner = Interner::new();
    let style = Style::new().with(font_size(&mut interner, 4));
    let fs_name = Name::private(&mut interner, "font_size").unwrap();

    let left = style.clone().merged_with(&Style::new());
    assert_eq!(left.len(), 1);
    assert_eq!(left.get_by_name(&fs_name).unwrap().as_int(), Some(4));

    let right = Style::new().merged_with(&style);
    assert_eq!(right.len(), 1);
    assert_eq!(right.get_by_name(&fs_name).unwrap().as_int(), Some(4));
}

#[test]
fn padding_merge_prefers_set_sides() {
    let mut interner = Interner::new();
    let mine = Style::new().with(padding(
        &mut interner,
        Padding {
            left: Some(1),
            right: Some(2),
            top: Some(3),
            bottom: Some(4),
        },
    ));
    let theirs = Style::new().with(padding(
        &mut interner,
        Padding {
            left: Some(9),
            right: Some(9),
            top: Some(9),
            bottom: Some(9),
        },
    ));
    let merged = mine.merged_with(&theirs);
    let pad_name = Name::new(&mut interner, "gooey", "padding").unwrap();
    assert_eq!(
        merged.get_by_name(&pad_name).unwrap().as_sides(),
        Some(Padding {
            left: Some(1),
            right: Some(2),
            top: Some(3),
            bottom: Some(4),
        })
    );
}

#[test]
fn invalid_identifier_message() {
    let err = validate_identifier("not ok").unwrap_err();
    assert_eq!(err, InvalidIdentifier);
    assert_eq!(err.message(), "invalid character found in identifier");
}

#[test]
fn get_with_fallback() {
    let mut interner = Interner::new();
    let text = Name::private(&mut interner, "text_color").unwrap();
    let foreground = Name::private(&mut interner, "foreground_color").unwrap();
    let chain = vec![text.clone(), foreground.clone()];

    let base = Style::new().with(AnyComponent::new(
        foreground.clone(),
        true,
        MergeRule::KeepSelf,
        ComponentValue::Int(7),
    ));
    assert_eq!(base.get_with_fallback(&chain).unwrap().as_int(), Some(7));

    let styled = base.with(text_color(&mut interner, 3));
    assert_eq!(styled.get_with_fallback(&chain).unwrap().as_int(), Some(3));

    assert!(Style::new().get_with_fallback(&chain).is_none());
}

#[test]
fn empty_and_capacity_styles() {
    let mut interner = Interner::new();
    assert!(Style::new().is_empty());
    assert_eq!(Style::new().len(), 0);
    let style = Style::with_capacity(4).with(font_size(&mut interner, 1));
    assert!(!style.is_empty());
    assert_eq!(style.len(), 1);
}
