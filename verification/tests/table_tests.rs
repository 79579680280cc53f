use oxur::table::parse_hex_color;
use oxur::table::{
    BasicColor, ColorChoice, Paint, Region, TableStep, TableStyleConfig,
    OXUR_DEFAULT,
};

#[test]
fn test_parse_hex_color_six_digit_with_hash() {
    assert_eq!(parse_hex_color("#FF0000"), Some((255, 0, 0)));
    assert_eq!(parse_hex_color("#00FF00"), Some((0, 255, 0)));
    assert_eq!(parse_hex_color("#0000FF"), Some((0, 0, 255)));
    assert_eq!(parse_hex_color("#FFFFFF"), Some((255, 255, 255)));
    assert_eq!(parse_hex_color("#000000"), Some((0, 0, 0)));
}

#[test]
fn test_parse_hex_color_six_digit_without_hash() {
    assert_eq!(parse_hex_color("FF0000"), Some((255, 0, 0)));
    assert_eq!(parse_hex_color("00FF00"), Some((0, 255, 0)));
    assert_eq!(parse_hex_color("0000FF"), Some((0, 0, 255)));
}

#[test]
fn test_parse_hex_color_three_digit_with_hash() {
    assert_eq!(parse_hex_color("#F00"), Some((255, 0, 0)));
    assert_eq!(parse_hex_color("#0F0"), Some((0, 255, 0)));
    assert_eq!(parse_hex_color("#00F"), Some((0, 0, 255)));
    assert_eq!(parse_hex_color("#FFF"), Some((255, 255, 255)));
    assert_eq!(parse_hex_color("#000"), Some((0, 0, 0)));
}

#[test]
fn test_parse_hex_color_three_digit_without_hash() {
    assert_eq!(parse_hex_color("F00"), Some((255, 0, 0)));
    assert_eq!(parse_hex_color("0F0"), Some((0, 255, 0)));
    assert_eq!(parse_hex_color("00F"), Some((0, 0, 255)));
}

#[test]
fn test_parse_hex_color_lowercase() {
    assert_eq!(parse_hex_color("#ff0000"), Some((255, 0, 0)));
    assert_eq!(parse_hex_color("#f00"), Some((255, 0, 0)));
    assert_eq!(parse_hex_color("abcdef"), Some((171, 205, 239)));
}

#[test]
fn test_parse_hex_color_mixed_case() {
    assert_eq!(parse_hex_color("#Ff0000"), Some((255, 0, 0)));
    assert_eq!(parse_hex_color("#AbCdEf"), Some((171, 205, 239)));
}

#[test]
fn test_parse_hex_color_invalid_length() {
    assert_eq!(parse_hex_color("#FF"), None);
    assert_eq!(parse_hex_color("#FFFF"), None);
    assert_eq!(parse_hex_color("#FFFFFFF"), None);
    assert_eq!(parse_hex_color(""), None);
}

#[test]
fn test_parse_hex_color_invalid_characters() {
    assert_eq!(parse_hex_color("#GGGGGG"), None);
    assert_eq!(parse_hex_color("#ZZZZZZ"), None);
    assert_eq!(parse_hex_color("#12345G"), None);
    assert_eq!(parse_hex_color("notahex"), None);
}

#[test]
fn test_parse_hex_color_real_world_colors() {
    // Oxur theme colors
    assert_eq!(parse_hex_color("#F97316"), Some((249, 115, 22)));
    assert_eq!(parse_hex_color("#D45500"), Some((212, 85, 0)));
    assert_eq!(parse_hex_color("#451A03"), Some((69, 26, 3)));
    assert_eq!(parse_hex_color("#FED7AA"), Some((254, 215, 170)));
    assert_eq!(parse_hex_color("#FDBA74"), Some((253, 186, 116)));
    assert_eq!(parse_hex_color("#803300"), Some((128, 51, 0)));
}

#[test]
fn test_default_theme_is_valid_toml() {
    // The default theme should parse without panicking
    let config = TableStyleConfig::default();
    // Verify basic structure
    assert_eq!(config.table.padding_left, 0);
    assert_eq!(config.table.padding_right, 0);
    assert_eq!(config.table.padding_top, 0);
    assert_eq!(config.table.padding_bottom, 0);
}

#[test]
fn test_default_theme_has_title_config() {
    let config = TableStyleConfig::default();
    assert!(config.title.is_some());
    let title = config.title.unwrap();
    assert!(title.enabled);
    assert_eq!(title.bg_color.as_deref(), Some("#F97316"));
    assert_eq!(title.fg_color.as_deref(), Some("#451A03"));
}

#[test]
fn test_default_theme_has_header_config() {
    let config = TableStyleConfig::default();
    assert_eq!(config.header.bg_color, "#D45500");
    assert_eq!(config.header.fg_color, "#451A03");
    assert_eq!(config.header.justification_char, " ");
}

#[test]
fn test_default_theme_has_row_colors() {
    let config = TableStyleConfig::default();
    assert_eq!(config.rows.colors.len(), 2);
    assert_eq!(config.rows.colors[0].bg, "#451A03");
    assert_eq!(config.rows.colors[0].fg, "#FED7AA");
    assert_eq!(config.rows.colors[1].bg, "#451A03");
    assert_eq!(config.rows.colors[1].fg, "#FDBA74");
}

#[test]
fn test_default_theme_has_footer_config() {
    let config = TableStyleConfig::default();
    assert!(config.footer.is_some());
    let footer = config.footer.unwrap();
    assert!(footer.enabled);
    assert_eq!(footer.bg_color.as_deref(), Some("#803300"));
    assert_eq!(footer.fg_color.as_deref(), Some("#D45500"));
}

#[test]
fn test_oxur_default_const_parses() {
    // Ensure the constant string itself is valid TOML
    let result: Result<toml::Value, _> = toml::from_str(OXUR_DEFAULT);
    assert!(result.is_ok());
}

fn toml_str<'a>(v: &'a toml::Value, table: &str, key: &str) -> Option<&'a str> {
    v.get(table).and_then(|t| t.get(key)).and_then(|x| x.as_str())
}

#[test]
fn default_theme_matches_its_toml_text() {
    let v: toml::Value = toml::from_str(OXUR_DEFAULT).unwrap();
    let c = TableStyleConfig::default();
    let title = c.title.clone().unwrap();
    let footer = c.footer.clone().unwrap();
    assert_eq!(toml_str(&v, "title", "bg_color"), title.bg_color.as_deref());
    assert_eq!(toml_str(&v, "title", "fg_color"), title.fg_color.as_deref());
    assert_eq!(toml_str(&v, "title", "justification_char"), title.justification_char.as_deref());
    assert_eq!(toml_str(&v, "title", "vertical_fg_color"), title.vertical_fg_color.as_deref());
    assert_eq!(toml_str(&v, "title", "vertical_bg_color"), title.vertical_bg_color.as_deref());
    assert_eq!(toml_str(&v, "header", "bg_color"), Some(c.header.bg_color.as_str()));
    assert_eq!(toml_str(&v, "header", "fg_color"), Some(c.header.fg_color.as_str()));
    assert_eq!(toml_str(&v, "header", "vertical_char"), c.header.vertical_char.as_deref());
    assert_eq!(toml_str(&v, "header", "vertical_bg_color"), c.header.vertical_bg_color.as_deref());
    assert_eq!(toml_str(&v, "header", "vertical_fg_color"), c.header.vertical_fg_color.as_deref());
    assert_eq!(toml_str(&v, "rows", "justification_char"), c.rows.justification_char.as_deref());
    assert_eq!(toml_str(&v, "style", "vertical_bg_color"), c.style.vertical_bg_color.as_deref());
    assert_eq!(toml_str(&v, "style", "vertical_fg_color"), c.style.vertical_fg_color.as_deref());
    assert_eq!(toml_str(&v, "footer", "bg_color"), footer.bg_color.as_deref());
    assert_eq!(toml_str(&v, "footer", "fg_color"), footer.fg_color.as_deref());
    assert_eq!(toml_str(&v, "footer", "justification_char"), footer.justification_char.as_deref());
    assert_eq!(toml_str(&v, "footer", "vertical_bg_color"), footer.vertical_bg_color.as_deref());
    assert_eq!(toml_str(&v, "footer", "vertical_fg_color"), footer.vertical_fg_color.as_deref());
    let rows = v.get("rows").and_then(|r| r.get("colors")).and_then(|x| x.as_array()).unwrap();
    assert_eq!(rows.len(), c.rows.colors.len());
    for (r, rc) in rows.iter().zip(c.rows.colors.iter()) {
        assert_eq!(r.get("bg").and_then(|x| x.as_str()), Some(rc.bg.as_str()));
        assert_eq!(r.get("fg").and_then(|x| x.as_str()), Some(rc.fg.as_str()));
    }
}

fn rgb(r: u8, g: u8, b: u8) -> ColorChoice {
    ColorChoice::Rgb(r, g, b)
}

#[test]
fn default_theme_styling_plan() {
    let plan = TableStyleConfig::default().styling_plan();
    assert_eq!(plan.vertical_char, Some('│'));
    assert_eq!(plan.padding, (0, 0, 0, 0));
    assert_eq!(plan.column_widths, (10, 75, 15));
    assert_eq!(
        plan.row_colors,
        vec![
            (rgb(0x45, 0x1A, 0x03), rgb(0xFE, 0xD7, 0xAA)),
            (rgb(0x45, 0x1A, 0x03), rgb(0xFD, 0xBA, 0x74)),
        ]
    );
    let data = Region::AllBut { first: true, second: true, last: true };
    let expected = vec![
        TableStep::Colors(Region::First, Paint::Pair(rgb(0xF9, 0x73, 0x16), rgb(0x45, 0x1A, 0x03))),
        TableStep::Justify(Region::First, ' ', rgb(0xF9, 0x73, 0x16)),
        TableStep::Colors(Region::Second, Paint::Pair(rgb(0xD4, 0x55, 0x00), rgb(0x45, 0x1A, 0x03))),
        TableStep::Justify(Region::Second, ' ', rgb(0xD4, 0x55, 0x00)),
        TableStep::Justify(data, ' ', rgb(0x45, 0x1A, 0x03)),
        TableStep::Borders(data, Paint::Pair(rgb(0x45, 0x1A, 0x03), rgb(0x80, 0x33, 0x00))),
        TableStep::Borders(Region::First, Paint::Pair(rgb(0xF9, 0x73, 0x16), rgb(0xF9, 0x73, 0x16))),
        TableStep::Borders(Region::Second, Paint::Pair(rgb(0xD4, 0x55, 0x00), rgb(0xD4, 0x55, 0x00))),
        TableStep::Colors(Region::Last, Paint::Pair(rgb(0x80, 0x33, 0x00), rgb(0xD4, 0x55, 0x00))),
        TableStep::Justify(Region::Last, ' ', rgb(0x80, 0x33, 0x00)),
        TableStep::Borders(Region::Last, Paint::Pair(rgb(0x80, 0x33, 0x00), rgb(0x80, 0x33, 0x00))),
    ];
    assert_eq!(plan.steps, expected);
}

#[test]
fn plain_theme_styling_plan_uses_defaults() {
    let mut c = TableStyleConfig::default();
    c.title = None;
    c.footer = None;
    c.header.vertical_char = None;
    c.header.vertical_fg_color = None;
    c.header.vertical_bg_color = None;
    c.header.bg_color = "Blue".to_string();
    c.header.fg_color = "nonsense".to_string();
    c.header.justification_char = String::new();
    c.style.vertical_char = Some(String::new());
    c.style.vertical_fg_color = None;
    c.style.vertical_bg_color = Some("grey".to_string());
    c.rows.justification_char = None;
    let plan = c.styling_plan();
    assert_eq!(plan.vertical_char, None);
    let blue = ColorChoice::Basic(BasicColor::Blue);
    let expected = vec![
        TableStep::Colors(Region::Second, Paint::Pair(blue, ColorChoice::Basic(BasicColor::White))),
        TableStep::Justify(Region::Second, ' ', blue),
        TableStep::Borders(
            Region::AllBut { first: true, second: false, last: false },
            Paint::Pair(ColorChoice::Basic(BasicColor::BrightBlack), ColorChoice::Basic(BasicColor::White)),
        ),
        TableStep::Borders(Region::Second, Paint::Background(blue)),
    ];
    assert_eq!(plan.steps, expected);
}

#[test]
fn theme_readability() {
    assert_eq!(parse_hex_color("+F+F+F"), None);
    assert_eq!(parse_hex_color("+FF"), None);
    assert_eq!(parse_hex_color("#é1"), None);
    assert_eq!(parse_hex_color("#é1234"), None);
    assert_eq!(parse_hex_color("#1é234"), None);
    assert_eq!(parse_hex_color("##abc"), Some((170, 187, 204)));
    let mut c = TableStyleConfig::default();
    assert!(c.theme_is_readable());
    c.header.fg_color = "1é234".to_string();
    assert!(c.theme_is_readable());
    let mut c = TableStyleConfig::default();
    c.rows.colors.clear();
    assert!(!c.theme_is_readable());
    c.rows.justification_char = None;
    assert!(c.theme_is_readable());
}
