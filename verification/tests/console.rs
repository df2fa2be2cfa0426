use ferrite_web::console::{
    chip_tone, grid_shade, is_retro_route, nav_slot_class, sections, step, tab_tone, toggle_knob, toggle_theme, Section,
    Theme,
};
use ferrite_web::settings::{
    connection_label, key_visibility, preset_values, test_button_label, typed_max_tokens,
    typed_streaming, PresetValues,
};

#[test]
fn sections_step_cyclically() {
    assert_eq!(sections()[3], Section::Logs);
    assert_eq!(Section::Manage.label(), "管理");
    assert_eq!(step(Section::Dashboard, 1), Section::Keys);
    assert_eq!(step(Section::Dashboard, -1), Section::Manage);
    assert_eq!(step(Section::Manage, 1), Section::Dashboard);
    assert_eq!(step(step(Section::Usage, 1), -1), Section::Usage);
}

#[test]
fn tones_and_theme() {
    assert_eq!(toggle_theme(Theme::Dark), (Theme::Light, "Light"));
    assert_eq!(toggle_theme(Theme::Light), (Theme::Dark, "Dark"));
    assert!(nav_slot_class(0, 5, true).contains("rounded-l-full"));
    assert!(nav_slot_class(4, 5, false).contains("rounded-r-full"));
    assert!(!nav_slot_class(2, 5, false).contains("rounded"));
    assert_eq!(chip_tone(false, false).1, "bg-zinc-600");
    assert_eq!(tab_tone(true), "text-zinc-100");
    assert_eq!(toggle_knob(true), "translate-x-4");
}

#[test]
fn settings_presets_and_inputs() {
    assert_eq!(preset_values("Creative"), PresetValues { temperature: 110, top_p: 98, rep_penalty: 115 });
    assert_eq!(preset_values("Precise"), PresetValues { temperature: 40, top_p: 80, rep_penalty: 105 });
    assert_eq!(preset_values("Default"), PresetValues { temperature: 80, top_p: 95, rep_penalty: 110 });
    assert_eq!(connection_label(false), "未连接或待测试");
    assert_eq!(test_button_label(true), "检测中…");
    assert_eq!(key_visibility(true), ("text", "隐藏"));
    assert_eq!(typed_max_tokens(1024, "2048"), 2048);
    assert_eq!(typed_max_tokens(1024, "99999999999"), 1024);
    assert_eq!(typed_max_tokens(1024, "x"), 1024);
    assert!(!typed_streaming("false"));
    assert!(typed_streaming("true"));
    assert!(typed_streaming("on"));
}

#[test]
fn hash_routes_and_grid_shades() {
    assert!(is_retro_route("#retro"));
    assert!(!is_retro_route(""));
    assert!(!is_retro_route("#retro2"));
    assert!(!is_retro_route("retro"));
    assert_eq!(grid_shade(0, 0), "bg-zinc-700");
    assert_eq!(grid_shade(0, 1), "bg-zinc-800/60");
    assert_eq!(grid_shade(1, 0), "bg-zinc-600");
    assert_eq!(grid_shade(1, 1), "bg-zinc-700");
    assert_eq!(grid_shade(2, 1), "bg-zinc-600");
    assert_eq!(grid_shade(2, 0), "bg-zinc-500");
    assert_eq!(grid_shade(3, 0), "bg-zinc-800");
    assert_eq!(grid_shade(7, 51), "bg-zinc-600");
}
