use cucumber::ask::{ask_color_defs, bitwig_mapping, first_unreadable_component, AskAttr, AskEvent};

fn start(name: &str, attr: Option<AskAttr>) -> AskEvent {
    AskEvent::Start { name: name.to_string(), first_attr: attr }
}

fn component(events: &mut Vec<AskEvent>, name: &str, v: u8) {
    events.push(start(name, Some(AskAttr::Number(v))));
    events.push(AskEvent::End);
}

fn theme() -> Vec<AskEvent> {
    let mut e = vec![start("Ableton", None), start("Theme", None), start("ControlForeground", None)];
    component(&mut e, "R", 12);
    component(&mut e, "G", 34);
    component(&mut e, "B", 56);
    component(&mut e, "Alpha", 255);
    e.push(AskEvent::End);
    e.push(start("DefaultBlendFactor", Some(AskAttr::Number(1))));
    e.push(AskEvent::End);
    e.push(start("ControlBackground", None));
    component(&mut e, "R", 1);
    component(&mut e, "Unknown", 9);
    e.push(AskEvent::End);
    e.push(start("SelectionFrame", None));
    e.push(AskEvent::End);
    e.push(AskEvent::End);
    e.push(AskEvent::End);
    e
}

#[test]
fn colors_enter_the_table_when_the_next_one_starts() {
    let events = theme();
    assert_eq!(first_unreadable_component(&events), None);
    let defs = ask_color_defs(&events);
    assert_eq!(
        defs,
        vec![
            ("ControlForeground".to_string(), (12, 34, 56, 255)),
            // Components carry over from the color before.
            ("ControlBackground".to_string(), (1, 34, 56, 255)),
        ]
    );
}

#[test]
fn factors_are_no_colors() {
    let mut e = vec![start("Ableton", None), start("Theme", None), start("A", None)];
    component(&mut e, "R", 7);
    e.push(AskEvent::End);
    e.push(start("IconBlendFactor", Some(AskAttr::Number(0))));
    e.push(AskEvent::End);
    e.push(start("B", None));
    e.push(AskEvent::End);
    let defs = ask_color_defs(&e);
    assert_eq!(defs, vec![("A".to_string(), (7, 0, 0, 0))]);
}

#[test]
fn a_component_without_a_number_is_reported() {
    let mut e = vec![start("Ableton", None), start("Theme", None), start("A", None)];
    component(&mut e, "R", 7);
    e.push(start("G", Some(AskAttr::Text("x".to_string()))));
    assert_eq!(first_unreadable_component(&e), Some(5));
    let mut e = vec![start("Ableton", None), start("Theme", None), start("A", None), start("R", None)];
    e.push(AskEvent::End);
    assert_eq!(first_unreadable_component(&e), Some(3));
}

#[test]
fn bitwig_names_take_the_ableton_colors() {
    let defs = vec![
        ("Background".to_string(), (1, 2, 3, 255)),
        ("Text".to_string(), (9, 9, 9, 255)),
        ("Background".to_string(), (4, 5, 6, 255)),
    ];
    let raw: &[(&str, &str)] = &[("Panel", "Background"), ("Label", "Text")];
    let m = bitwig_mapping(&defs, raw).ok().unwrap();
    assert_eq!(m, vec![("Panel".to_string(), (4, 5, 6, 255)), ("Label".to_string(), (9, 9, 9, 255))]);
}

#[test]
fn a_missing_ableton_name_is_reported() {
    let defs = vec![("Background".to_string(), (1, 2, 3, 255))];
    let raw: &[(&str, &str)] = &[("Panel", "Background"), ("Label", "Text"), ("Knob", "Nope")];
    assert_eq!(bitwig_mapping(&defs, raw).err().unwrap(), "Text");
}
