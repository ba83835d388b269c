use cgo_gen::config::Config;
use cgo_gen::parsing::units::{
    is_header_file, is_source_translation_unit_file, select_translation_units, source_preferred,
};

fn strings(items: &[&str]) -> Vec<String> {
    items.iter().map(|s| s.to_string()).collect()
}

fn dir_config() -> Config {
    let mut config = Config::default();
    config.input.dir = Some("/p".to_string());
    config.input.headers = strings(&["/p/g/x.h"]);
    config
}

#[test]
fn header_mode_keeps_the_configured_headers() {
    let mut config = Config::default();
    config.input.headers = strings(&["b.hpp", "a.hpp"]);
    let none: Vec<Vec<String>> = Vec::new();
    assert_eq!(
        select_translation_units(&config, &strings(&["/p/a.cpp"]), &none, &strings(&["/p/z.cpp"])),
        strings(&["b.hpp", "a.hpp"])
    );
    assert!(select_translation_units(&Config::default(), &vec![], &none, &vec![]).is_empty());
}

#[test]
fn database_and_grouped_sources_are_merged_in_path_order() {
    let grouped = vec![strings(&["/p/g/x.h", "/p/g/y.cpp"]), strings(&["/p/h/z.h"])];
    let units = select_translation_units(
        &dir_config(),
        &strings(&["/p/c.cc", "/p/b.h", "/p/a.cpp", "/p/c.cc"]),
        &grouped,
        &strings(&["/p/ignored.cpp"]),
    );
    assert_eq!(units, strings(&["/p/a.cpp", "/p/c.cc", "/p/g/y.cpp"]));
}

#[test]
fn path_order_compares_part_by_part() {
    let units = select_translation_units(
        &dir_config(),
        &strings(&["/p/a-b/x.cpp", "/p/a/x.cpp"]),
        &vec![],
        &vec![],
    );
    assert_eq!(units, strings(&["/p/a/x.cpp", "/p/a-b/x.cpp"]));
}

#[test]
fn directory_scan_is_the_fallback_and_prefers_sources() {
    let grouped = vec![strings(&["/p/g/notes.txt"])];
    assert_eq!(
        select_translation_units(&dir_config(), &vec![], &grouped, &strings(&["/p/y.hpp", "/p/x.h", "/p/r.txt"])),
        strings(&["/p/x.h", "/p/y.hpp"])
    );
    assert_eq!(
        source_preferred(&strings(&["/p/y.hpp", "/p/m.cxx", "/p/k.c"])),
        strings(&["/p/k.c", "/p/m.cxx"])
    );
}

#[test]
fn units_are_classified_by_extension() {
    assert!(is_source_translation_unit_file("a/b.cpp"));
    assert!(is_source_translation_unit_file("b.c"));
    assert!(!is_source_translation_unit_file("b.hpp"));
    assert!(is_header_file("x/y.hh"));
    assert!(!is_header_file(".h"));
    assert!(!is_header_file("Makefile"));
}
