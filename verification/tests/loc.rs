use murmur::loc::{interpolate, Catalogue, Row, MISSING};

fn catalogue() -> Catalogue {
    let rows = [
        ("names.first.01", "Ada"),
        ("names.first.02", "Bo"),
        ("names.last.01", "Marsh"),
        ("ui.mission.here", "[here: {what}]"),
        ("zone.secure", "secure"),
    ];
    Catalogue::from_rows(
        rows.iter().map(|(id, text)| Row { id: id.to_string(), text: text.to_string() }).collect(),
    )
}

#[test]
fn interpolates_named_slots() {
    assert_eq!(
        interpolate("[{who} is in {room}]", &[("who", "a guard"), ("room", "VIP")]),
        "[a guard is in VIP]"
    );
}

#[test]
fn repeated_slots_all_fill() {
    assert_eq!(interpolate("{a}-{a}", &[("a", "x")]), "x-x");
}

#[test]
fn unbound_slots_stay_as_written() {
    assert_eq!(interpolate("found in {room}", &[("who", "a guard")]), "found in {room}");
    assert_eq!(interpolate("never {closed", &[("closed", "x")]), "never {closed");
    assert_eq!(interpolate("{}", &[("", "empty")]), "empty");
    assert_eq!(interpolate("{a}{b}", &[("b", "2"), ("a", "1"), ("a", "3")]), "12");
}

#[test]
fn lookups_fall_back_to_the_loud_placeholder() {
    let cat = catalogue();
    assert_eq!(cat.text("zone.secure"), "secure");
    assert_eq!(cat.text("zone.nowhere"), MISSING);
    assert_eq!(Catalogue::new().text("zone.secure"), MISSING);
}

#[test]
fn formatted_lookups_fill_their_slots() {
    let cat = catalogue();
    assert_eq!(cat.fmt("ui.mission.here", &[("what", "a closed door")]), "[here: a closed door]");
    assert_eq!(cat.fmt("ui.mission.gone", &[("what", "x")]), MISSING);
}

#[test]
fn pools_are_the_rows_under_a_prefix_in_order() {
    let cat = catalogue();
    assert_eq!(cat.pool("names.first."), vec!["Ada".to_string(), "Bo".to_string()]);
    assert_eq!(cat.pool("names.last."), vec!["Marsh".to_string()]);
    assert!(cat.pool("briefing.reason.").is_empty());
}

#[test]
fn no_arguments_leave_a_template_as_written() {
    for template in ["found in {room}", "{a}-{b}", "plain text", "{never closed", ""] {
        assert_eq!(interpolate(template, &[]), template);
    }
}

#[test]
fn pool_ids_list_the_ids_behind_a_pool() {
    let cat = catalogue();
    assert_eq!(cat.pool_ids("names.first."), vec!["names.first.01".to_string(), "names.first.02".to_string()]);
    assert_eq!(cat.pool("names.first."), vec!["Ada".to_string(), "Bo".to_string()]);
    assert!(cat.pool_ids("nothing.").is_empty());
}

#[test]
fn without_arguments_a_template_comes_back_as_written() {
    for template in ["[{who} is in {room}]", "plain text", "{", "}{x}{", ""] {
        assert_eq!(interpolate(template, &[]), template);
    }
}

#[test]
fn pool_ids_ascend_and_name_their_texts() {
    let cat = catalogue();
    let ids = cat.pool_ids("names.");
    assert_eq!(ids, vec!["names.first.01".to_string(), "names.first.02".to_string(), "names.last.01".to_string()]);
    assert!(ids.windows(2).all(|w| w[0] < w[1]));
    let texts = cat.pool("names.");
    for (id, text) in ids.iter().zip(texts.iter()) {
        assert_eq!(&cat.text(id), text);
    }
}

#[test]
fn rows_are_put_in_id_order_and_the_last_copy_wins() {
    let rows = vec![
        Row { id: "names.first.02".to_string(), text: "Bo".to_string() },
        Row { id: "names.first.01".to_string(), text: "Ada".to_string() },
        Row { id: "names.first.02".to_string(), text: "Cy".to_string() },
        Row { id: "zone.secure".to_string(), text: "secure".to_string() },
    ];
    let cat = Catalogue::from_rows(rows);
    assert_eq!(cat.pool_ids("names.first."), vec!["names.first.01", "names.first.02"]);
    assert_eq!(cat.pool("names.first."), vec!["Ada", "Cy"]);
    assert_eq!(cat.text("names.first.02"), "Cy");
    assert_eq!(cat.text("names.first.03"), MISSING);
}

#[test]
fn id_order_puts_a_prefix_first() {
    assert!(murmur::loc::id_less("names.first", "names.first.01"));
    assert!(!murmur::loc::id_less("names.first.01", "names.first"));
    assert!(!murmur::loc::id_less("zone", "zone"));
    assert!(murmur::loc::id_less("a.b", "a.c"));
}
