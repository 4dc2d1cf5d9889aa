use dawn_project::model::color::{ChannelRange, Color};
use dawn_project::model::refs::{validate_identifier, AssetPath, DefinitionKey, SymbolRef};

#[test]
fn color_parses_hex_literals() {
    assert_eq!(Color::parse("#ff8000").unwrap(), Color::new(255, 128, 0));
    assert_eq!(Color::parse("#FFfFff").unwrap(), Color::new(255, 255, 255));
    assert_eq!(Color::parse("ff8000").unwrap_err(), "color literal must start with `#`");
    assert_eq!(Color::parse("#ff80").unwrap_err(), "color literal must look like `#rrggbb`");
    assert_eq!(Color::parse("#gg0000").unwrap_err(), "color literal must look like `#rrggbb`");
}

#[test]
fn color_hex_round_trips() {
    let c = Color::new(1, 171, 254);
    assert_eq!(c.to_hex(), "#01abfe");
    assert_eq!(Color::parse(&c.to_hex()).unwrap(), c);
}

#[test]
fn channel_range_parses_and_round_trips() {
    let r = ChannelRange::parse("1..510").unwrap();
    assert_eq!(r, ChannelRange { start: 1, end: 510 });
    assert_eq!(r.to_text(), "1..510");
    assert_eq!(ChannelRange::parse(&r.to_text()).unwrap(), r);
    assert_eq!(ChannelRange::parse("7").unwrap_err(), "channel range must look like `1..510`");
    assert_eq!(ChannelRange::parse("a..5").unwrap_err(), "range start must be an integer");
    assert_eq!(ChannelRange::parse("1..b").unwrap_err(), "range end must be an integer");
    assert_eq!(ChannelRange::parse("9..5").unwrap_err(), "range start must be <= range end");
}

#[test]
fn identifiers_are_validated_with_a_label() {
    assert!(validate_identifier("front_wash2", "name").is_ok());
    assert_eq!(validate_identifier("", "name").unwrap_err(), "name cannot be empty");
    assert_eq!(
        validate_identifier("2x", "name").unwrap_err(),
        "name must start with a letter or underscore"
    );
    assert_eq!(
        validate_identifier("a-b", "name").unwrap_err(),
        "name may only contain letters, numbers, and underscores"
    );
}

#[test]
fn symbol_refs_split_alias_and_name() {
    let plain = SymbolRef::new("wash").unwrap();
    assert_eq!(plain.alias(), None);
    assert_eq!(plain.name().as_str(), "wash");
    assert_eq!(plain.raw(), "wash");
    let aliased = SymbolRef::new("lib.wash").unwrap();
    assert_eq!(aliased.alias(), Some("lib"));
    assert_eq!(aliased.name().as_str(), "wash");
    assert_eq!(
        SymbolRef::new("lib.").unwrap_err(),
        "reference name cannot be empty"
    );
    assert_eq!(
        SymbolRef::new("1lib.wash").unwrap_err(),
        "reference alias must start with a letter or underscore"
    );
}

#[test]
fn asset_paths_and_definition_keys() {
    assert_eq!(AssetPath::new("").unwrap_err(), "asset path must not be empty");
    let path = AssetPath::new("audio/song.wav").unwrap();
    assert_eq!(path.raw(), "audio/song.wav");
    let key = DefinitionKey::new("show.dawn".to_string(), "main".to_string());
    assert_eq!(key.display_key(), "show.dawn#main");
}

#[test]
fn a_parsed_color_is_written_back_in_lowercase() {
    let color = dawn_project::model::color::Color::parse("#A1b2C3").unwrap();
    assert_eq!(color.to_hex(), "#a1b2c3");
}
