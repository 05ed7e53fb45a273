use cccl_composer::axes::{
    get_build_types, get_compilers, get_ctks, get_dialects, get_targets, supported_dialects,
    AppConfig,
};
use cccl_composer::cells::enumerate;
use cccl_composer::labels::LabelMap;

fn s(x: &str) -> String {
    x.to_string()
}

fn strings(xs: &[&str]) -> Vec<String> {
    xs.iter().map(|x| x.to_string()).collect()
}

fn pairs(xs: &[(&str, &str)]) -> Vec<(String, String)> {
    xs.iter().map(|(a, b)| (a.to_string(), b.to_string())).collect()
}

fn sample_config() -> AppConfig {
    AppConfig::new(
        pairs(&[("cub", "/src/cub"), ("thrust", "/src/thrust")]),
        pairs(&[("gcc-12", "/usr/bin/g++-12"), ("nvhpc-22", "/opt/nvhpc/nvc++")]),
        pairs(&[("11.8", "/usr/local/cuda-11.8"), ("12.0", "/usr/local/cuda-12.0")]),
    )
}

#[test]
fn label_map_insert_get_and_order() {
    let mut m = LabelMap::new();
    assert_eq!(m.get(&s("a")), None);
    m.insert(s("b"), s("1"));
    m.insert(s("a"), s("2"));
    m.insert(s("b"), s("3"));
    assert_eq!(m.get(&s("b")), Some(&s("3")));
    assert_eq!(m.get(&s("a")), Some(&s("2")));
    assert_eq!(m.get(&s("c")), None);
    assert_eq!(m.labels(), strings(&["b", "a"]));
}

#[test]
fn label_map_from_pairs_later_wins() {
    let m = LabelMap::from_pairs(pairs(&[("x", "1"), ("y", "2"), ("x", "9")]));
    assert_eq!(m.get(&s("x")), Some(&s("9")));
    assert_eq!(m.get(&s("y")), Some(&s("2")));
    assert_eq!(m.labels(), strings(&["x", "y"]));
}

#[test]
fn config_labels() {
    let config = sample_config();
    assert_eq!(config.compiler_labels(), strings(&["gcc-12", "nvhpc-22"]));
    assert_eq!(config.ctk_labels(), strings(&["11.8", "12.0"]));
    assert_eq!(config.src.get(&s("cub")), Some(&s("/src/cub")));
}

#[test]
fn axes_default_when_nothing_selected() {
    let config = sample_config();
    assert_eq!(get_build_types(None), strings(&["debug", "release"]));
    assert_eq!(get_dialects(None), strings(&["11", "14", "17"]));
    assert_eq!(supported_dialects(), strings(&["11", "14", "17"]));
    assert_eq!(get_compilers(&config, None), strings(&["gcc-12", "nvhpc-22"]));
    assert_eq!(get_ctks(&config, None), strings(&["11.8", "12.0"]));
}

#[test]
fn axes_follow_the_selection() {
    let config = sample_config();
    assert_eq!(get_build_types(Some(strings(&["release"]))), strings(&["release"]));
    assert_eq!(get_dialects(Some(strings(&["17", "14"]))), strings(&["17", "14"]));
    assert_eq!(get_compilers(&config, Some(strings(&["gcc-12"]))), strings(&["gcc-12"]));
    assert_eq!(get_ctks(&config, Some(strings(&["12.0"]))), strings(&["12.0"]));
}

#[test]
fn targets_default_to_empty() {
    let cpp = strings(&["11", "17"]);
    let t = get_targets(&cpp, None);
    assert_eq!(t.get(&s("11")), Some(&s("")));
    assert_eq!(t.get(&s("17")), Some(&s("")));
    assert_eq!(t.get(&s("14")), None);
}

#[test]
fn targets_name_the_last_selected_target_per_dialect() {
    let cpp = strings(&["11", "17"]);
    let t = get_targets(&cpp, Some(strings(&["test.a", "test.b"])));
    assert_eq!(t.get(&s("11")), Some(&s("cub.cpp11.test.b")));
    assert_eq!(t.get(&s("17")), Some(&s("cub.cpp17.test.b")));
    let empty = get_targets(&cpp, Some(Vec::new()));
    assert_eq!(empty.get(&s("11")), None);
}

#[test]
fn enumeration_order_and_count() {
    let types = strings(&["debug", "release"]);
    let ctks = strings(&["11.8"]);
    let compilers = strings(&["gcc", "clang", "nvhpc"]);
    let cpps = strings(&["14", "17"]);
    let targets = get_targets(&cpps, Some(strings(&["x"])));
    let cells = enumerate(&types, &ctks, &compilers, &cpps, &targets);
    assert_eq!(cells.len(), 2 * 1 * 3 * 2);
    let first = &cells[0];
    assert_eq!(
        (&first.build_type[..], &first.ctk[..], &first.compiler[..], &first.dialect[..]),
        ("debug", "11.8", "gcc", "14")
    );
    assert_eq!(first.target, "cub.cpp14.x");
    let second = &cells[1];
    assert_eq!((&second.compiler[..], &second.dialect[..]), ("gcc", "17"));
    let third = &cells[2];
    assert_eq!((&third.compiler[..], &third.dialect[..]), ("clang", "14"));
    let last = &cells[11];
    assert_eq!(
        (&last.build_type[..], &last.ctk[..], &last.compiler[..], &last.dialect[..]),
        ("release", "11.8", "nvhpc", "17")
    );
    assert_eq!(last.target, "cub.cpp17.x");
}

#[test]
fn enumeration_tuples_are_distinct() {
    let types = strings(&["debug", "release"]);
    let ctks = strings(&["11.8", "12.0", "12.1"]);
    let compilers = strings(&["gcc", "clang"]);
    let cpps = strings(&["11", "14", "17"]);
    let targets = get_targets(&cpps, None);
    let cells = enumerate(&types, &ctks, &compilers, &cpps, &targets);
    assert_eq!(cells.len(), 2 * 3 * 2 * 3);
    for i in 0..cells.len() {
        assert_eq!(cells[i].target, "");
        for j in 0..cells.len() {
            if i != j {
                let a = &cells[i];
                let b = &cells[j];
                assert!(
                    (&a.build_type, &a.ctk, &a.compiler, &a.dialect)
                        != (&b.build_type, &b.ctk, &b.compiler, &b.dialect)
                );
            }
        }
    }
}

#[test]
fn enumeration_with_an_empty_axis_is_empty() {
    let cpps = strings(&["11"]);
    let targets = get_targets(&cpps, None);
    let cells = enumerate(&strings(&["debug"]), &Vec::new(), &strings(&["gcc"]), &cpps, &targets);
    assert!(cells.is_empty());
}
