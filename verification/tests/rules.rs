use stylecs::{
    classes, element_id, font_size, text_color, Alignment, Classes, FontFamily, FontStyle, Id,
    Interner, Name, Rule, State, Style, StyleSheet, SystemTheme, VerticalAlignment, Weight,
};

fn class_list(names: Vec<&str>) -> Classes {
    Classes(names.into_iter().map(String::from).collect())
}

fn rule() -> Rule {
    Rule::for_id(Id(String::from("a")))
}

#[test]
fn classes_merge_test() {
    assert_eq!(
        class_list(vec!["a", "b", "c"]).merge(&class_list(vec!["c", "b", "a"])),
        class_list(vec!["a", "b", "c"])
    );
    assert_eq!(
        class_list(vec!["a", "c", "d", "e"]).merge(&class_list(vec!["b", "d", "f"])),
        class_list(vec!["a", "b", "c", "d", "e", "f"])
    );
}

#[test]
fn rule_applies_tests() {
    let only_hovered = State {
        hovered: true,
        ..State::default()
    };
    let only_focused = State {
        focused: true,
        ..State::default()
    };
    let only_active = State {
        active: true,
        ..State::default()
    };

    assert!(rule().when_hovered().applies(&only_hovered));
    assert!(!rule().when_hovered().applies(&State::default()));
    assert!(rule().when_not_hovered().applies(&State::default()));

    assert!(rule().when_focused().applies(&only_focused));
    assert!(!rule().when_focused().applies(&State::default()));
    assert!(rule().when_not_focused().applies(&State::default()));

    assert!(rule().when_active().applies(&only_active));
    assert!(!rule().when_active().applies(&State::default()));
    assert!(rule().when_not_active().applies(&State::default()));

    assert!(rule().applies(&State::default()));
    assert!(rule().when_not_active().applies(&State::default()));
    assert!(rule().applies(&only_hovered));
}

#[test]
fn style_merge_test() {
    let mut interner = Interner::new();
    let original = Style::new().with(classes(&mut interner, vec![String::from("a")]));
    let b_style = Style::new().with(classes(&mut interner, vec![String::from("b")]));
    let name = Name::private(&mut interner, "classes").unwrap();

    let merged = original.clone().merged_with(&b_style);
    assert_eq!(
        merged
            .get_by_name(&name)
            .expect("no classes")
            .as_text_list()
            .unwrap(),
        &vec![String::from("a"), String::from("b")]
    );

    let merged = original.inherited_from(&b_style);
    assert_eq!(
        merged
            .get_by_name(&name)
            .expect("no classes")
            .as_text_list()
            .unwrap(),
        &vec![String::from("a")]
    );
}

#[test]
fn class_components_merge_to_sorted_union() {
    let mut interner = Interner::new();
    let a = Style::new().with(classes(
        &mut interner,
        vec![String::from("card"), String::from("wide")],
    ));
    let b = Style::new().with(classes(
        &mut interner,
        vec![String::from("accent"), String::from("card")],
    ));
    let merged = a.merged_with(&b);
    let name = Name::private(&mut interner, "classes").unwrap();
    let list = merged.get_by_name(&name).unwrap().as_text_list().unwrap().clone();
    assert_eq!(
        list,
        vec![
            String::from("accent"),
            String::from("card"),
            String::from("wide")
        ]
    );
}

#[test]
fn rule_builders_set_conditions() {
    let rule = Rule::for_classes(class_list(vec!["nav"]));
    assert!(rule.hovered.is_none() && rule.focused.is_none() && rule.active.is_none());
    assert!(rule.style.is_empty());
    let rule = rule.when_hovered().when_not_focused();
    assert_eq!(rule.hovered, Some(true));
    assert_eq!(rule.focused, Some(false));
    assert_eq!(rule.active, None);
}

#[test]
fn effective_style_prefers_element_and_later_rules() {
    let mut interner = Interner::new();
    let sheet = StyleSheet::new(&mut interner)
        .with(
            Rule::for_classes(Classes(vec![String::from("nav")]))
                .with_style(Style::new().with(font_size(&mut interner, 10)).with(text_color(
                    &mut interner,
                    0x111111,
                ))),
        )
        .with(
            Rule::for_id(Id(String::from("header")))
                .with_style(Style::new().with(font_size(&mut interner, 20))),
        );
    let element = Style::new()
        .with(element_id(&mut interner, String::from("header")))
        .with(classes(&mut interner, vec![String::from("nav")]));

    let effective = sheet.effective_style_for(element, &State::default());
    let fs_name = Name::private(&mut interner, "font_size").unwrap();
    let tc_name = Name::private(&mut interner, "text_color").unwrap();
    // The id rule was pushed later, so its font size prevails; the class
    // rule still contributes the text color.
    assert_eq!(effective.get_by_name(&fs_name).unwrap().as_int(), Some(20));
    assert_eq!(
        effective.get_by_name(&tc_name).unwrap().as_int(),
        Some(0x111111)
    );

    // A component on the element itself always prevails.
    let styled_element = Style::new()
        .with(element_id(&mut interner, String::from("header")))
        .with(font_size(&mut interner, 36));
    let effective = sheet.effective_style_for(styled_element, &State::default());
    assert_eq!(effective.get_by_name(&fs_name).unwrap().as_int(), Some(36));

    // A rule for another id does not apply.
    let other_element = Style::new().with(element_id(&mut interner, String::from("footer")));
    let effective = sheet.effective_style_for(other_element, &State::default());
    assert!(effective.get_by_name(&fs_name).is_none());
}

#[test]
fn effective_style_honors_state_conditions() {
    let mut interner = Interner::new();
    let sheet = StyleSheet::new(&mut interner).with(
        Rule::for_id(Id(String::from("button")))
            .when_hovered()
            .with_style(Style::new().with(text_color(&mut interner, 0xFF0000))),
    );
    let tc_name = Name::private(&mut interner, "text_color").unwrap();

    let element = Style::new().with(element_id(&mut interner, String::from("button")));
    let calm = sheet.effective_style_for(element.clone(), &State::default());
    assert!(calm.get_by_name(&tc_name).is_none());

    let hovered = State {
        hovered: true,
        ..State::default()
    };
    let hot = sheet.effective_style_for(element, &hovered);
    assert_eq!(hot.get_by_name(&tc_name).unwrap().as_int(), Some(0xFF0000));
}

#[test]
fn sheet_merge_prefers_self() {
    let mut interner = Interner::new();
    let base = StyleSheet::new(&mut interner).with(
        Rule::for_id(Id(String::from("a")))
            .with_style(Style::new().with(font_size(&mut interner, 1))),
    );
    let preferred = StyleSheet::new(&mut interner).with(
        Rule::for_id(Id(String::from("a")))
            .with_style(Style::new().with(font_size(&mut interner, 2))),
    );
    let combined = preferred.merge_with(&base);
    let element = Style::new().with(element_id(&mut interner, String::from("a")));
    let effective = combined.effective_style_for(element, &State::default());
    let fs_name = Name::private(&mut interner, "font_size").unwrap();
    assert_eq!(effective.get_by_name(&fs_name).unwrap().as_int(), Some(2));
}

#[test]
fn weight_numbers() {
    assert_eq!(Weight::Thin.to_number(), 100);
    assert_eq!(Weight::ExtraLight.to_number(), 200);
    assert_eq!(Weight::Light.to_number(), 300);
    assert_eq!(Weight::Normal.to_number(), 400);
    assert_eq!(Weight::Medium.to_number(), 500);
    assert_eq!(Weight::SemiBold.to_number(), 600);
    assert_eq!(Weight::Bold.to_number(), 700);
    assert_eq!(Weight::ExtraBold.to_number(), 800);
    assert_eq!(Weight::Black.to_number(), 900);
    assert_eq!(Weight::Other(450).to_number(), 450);
}

#[test]
fn component_type_defaults() {
    assert_eq!(Alignment::default(), Alignment::Left);
    assert_eq!(VerticalAlignment::default(), VerticalAlignment::Top);
    assert_eq!(FontStyle::default(), FontStyle::Regular);
    assert_eq!(SystemTheme::default(), SystemTheme::Light);
    assert_eq!(FontFamily::default(), FontFamily(String::from("Roboto")));
    assert_eq!(Weight::default(), Weight::Normal);
}
