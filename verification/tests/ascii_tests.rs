use ascii_art_studio::ascii::{
    builtin_palette_text, get_palette, gray_to_index, grid_to_ascii, index_to_level, AsciiCell,
    PALETTE_COUNT,
};

fn chars(s: &str) -> Vec<char> {
    s.chars().collect()
}

#[test]
fn get_palette_selects_by_index_and_clamps() {
    assert_eq!(get_palette(0, &None), chars(builtin_palette_text(0)));
    assert_eq!(get_palette(999, &None), chars(builtin_palette_text(PALETTE_COUNT - 1)));
}

#[test]
fn get_palette_custom_overrides_but_blank_falls_back() {
    assert_eq!(get_palette(0, &Some(" .#".to_string())), vec![' ', '.', '#']);
    assert_eq!(get_palette(0, &Some("   ".to_string())), chars(builtin_palette_text(0)));
}

#[test]
fn builtin_palettes_are_the_known_ones() {
    assert_eq!(builtin_palette_text(0), " .:-=+*#%@");
    assert_eq!(builtin_palette_text(3), " ░▒▓█");
    assert_eq!(builtin_palette_text(4), " 01");
    assert_eq!(builtin_palette_text(5), " ⠁⠃⠇⠏⠟⠿⡿⣿");
    assert_eq!(get_palette(2, &None).len(), 70);
    assert_eq!(get_palette(1, &Some("\t\n ".to_string())), chars(builtin_palette_text(1)));
}

#[test]
fn gray_to_index_clamps_out_of_range() {
    assert_eq!(gray_to_index(300, 10), 9);
    assert_eq!(gray_to_index(-1000, 10), 0);
    assert_eq!(gray_to_index(510, 3), 2);
}

#[test]
fn gray_to_index_rounds_down() {
    // 100 * 9 / 255 = 3.52.. -> 3
    assert_eq!(gray_to_index(100, 10), 3);
    assert_eq!(gray_to_index(100, 2), 0);
    assert_eq!(gray_to_index(128, 3), 1);
    assert_eq!(gray_to_index(77, 1), 0);
}

#[test]
fn index_level_of_binary_palette() {
    assert_eq!(index_to_level(0, 2), 0);
    assert_eq!(index_to_level(1, 2), 255);
    assert_eq!(index_to_level(1, 3), 127);
}

fn cell(r: u8, g: u8, b: u8, ch: char) -> AsciiCell {
    AsciiCell { r, g, b, ch }
}

#[test]
fn mono_grid_is_lines_of_chars() {
    let cells = vec![cell(0, 0, 0, ' '), cell(255, 255, 255, '@'), cell(1, 2, 3, '.'), cell(4, 5, 6, '#')];
    assert_eq!(grid_to_ascii(&cells, 2, 2, false), " @\n.#\n");
    assert_eq!(grid_to_ascii(&Vec::new(), 0, 3, false), "\n\n\n");
}

#[test]
fn color_grid_produces_html() {
    let cells = vec![cell(255, 0, 0, '@')];
    let out = grid_to_ascii(&cells, 1, 1, true);
    assert_eq!(
        out,
        "<pre style='margin:0;padding:0;line-height:1.0;font-family:monospace;'><span style='color:#FF0000'>@</span><br></pre>"
    );
}

#[test]
fn color_grid_merges_same_color_runs() {
    let cells = vec![cell(200, 200, 200, '%'), cell(200, 200, 200, '%'), cell(200, 200, 200, '#')];
    let out = grid_to_ascii(&cells, 3, 1, true);
    assert_eq!(out.matches("<span").count(), 1, "{out}");
    assert!(out.contains("<span style='color:#C8C8C8'>%%#</span><br>"), "{out}");
}

#[test]
fn color_grid_opens_a_run_per_color_change_and_row() {
    let cells = vec![
        cell(1, 2, 3, 'a'),
        cell(10, 11, 12, 'b'),
        cell(10, 11, 12, 'c'),
        cell(10, 11, 12, 'd'),
    ];
    let out = grid_to_ascii(&cells, 2, 2, true);
    assert_eq!(
        out,
        "<pre style='margin:0;padding:0;line-height:1.0;font-family:monospace;'>\
<span style='color:#010203'>a</span><span style='color:#0A0B0C'>b</span><br>\
<span style='color:#0A0B0C'>cd</span><br></pre>"
    );
}

#[test]
fn color_grid_escapes_html_chars() {
    let cells = vec![cell(255, 255, 255, '<'), cell(255, 255, 255, '>'), cell(255, 255, 255, '&'), cell(255, 255, 255, ' ')];
    let out = grid_to_ascii(&cells, 4, 1, true);
    assert!(out.contains("&lt;&gt;&amp;&nbsp;"), "{out}");
    assert!(!out.contains("><<"), "сырой '<' не должен утечь: {out}");
}

#[test]
fn brighter_never_maps_darker() {
    for n in [1, 2, 3, 10, 70] {
        let mut prev = 0;
        for g in -20..300 {
            let i = gray_to_index(g, n);
            assert!(i >= prev, "gray {g} palette {n}");
            prev = i;
        }
    }
}

#[test]
fn quantized_level_never_exceeds_gray() {
    for n in [2, 3, 10, 70] {
        for g in 0..=255 {
            let idx = gray_to_index(g, n) as i32;
            assert!(index_to_level(idx, n) <= g);
        }
    }
}

#[test]
fn brightness_to_index_maps_extremes() {
    // Without dithering a gray level maps straight to its palette index.
    assert_eq!(gray_to_index(0, 10), 0);
    assert_eq!(gray_to_index(255, 10), 9);
    assert_eq!(gray_to_index(-10, 10), 0);
}
