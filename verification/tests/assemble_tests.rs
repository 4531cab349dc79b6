use bargo::assemble::{assemble, banner, DepSource};
use bargo::commands::BuildCommand;
use bargo::config::{sort_dependencies, Config, Dependency, Package};

fn strings(lines: &[&str]) -> Vec<String> {
    lines.iter().map(|s| String::from(*s)).collect()
}

fn dep(name: &str, body: &[&str]) -> DepSource {
    DepSource {
        name: String::from(name),
        lines: strings(body),
    }
}

#[test]
fn banner_has_five_lines_with_the_uppercased_name() {
    let lines = banner(&String::from("tools"));
    let sep = format!("REM {}", "=".repeat(76));
    assert_eq!(
        lines,
        strings(&[":", &sep, "REM IMPORT TOOLS.BAS", &sep, ":"])
    );
}

#[test]
fn main_lines_come_first_then_each_dependency_block() {
    let main = strings(&["PRINT 1", "PRINT 2"]);
    let deps = vec![dep("a", &["REM A"]), dep("b", &["REM B1", "REM B2"])];
    let out = assemble(&main, &deps);
    let sep = format!("REM {}", "=".repeat(76));
    assert_eq!(
        out,
        strings(&[
            "PRINT 1",
            "PRINT 2",
            ":",
            &sep,
            "REM IMPORT A.BAS",
            &sep,
            ":",
            "REM A",
            ":",
            &sep,
            "REM IMPORT B.BAS",
            &sep,
            ":",
            "REM B1",
            "REM B2",
        ])
    );
}

#[test]
fn assembling_without_dependencies_keeps_the_main_file() {
    let main = strings(&["PRINT 1"]);
    let out = assemble(&main, &Vec::new());
    assert_eq!(out, main);
}

#[test]
fn assembling_twice_gives_identical_output() {
    let main = strings(&["PRINT 1", "GOTO end", "LABEL end"]);
    let deps = vec![dep("util", &["REM U"])];
    let first = assemble(&main, &deps);
    let second = assemble(&main, &deps);
    assert_eq!(first, second);
}

#[test]
fn a_full_build_is_reproducible() {
    let mut package = Package::default();
    package.numbering = 10;
    package.width = 80;
    package.labels = true;
    let build = BuildCommand::new(Config {
        package,
        dependencies: Some(Vec::new()),
    });
    let main = strings(&["GOSUB sub", "END", "LABEL sub", "RETURN"]);
    let deps = vec![dep("lib", &["LABEL inner", "RETURN"])];
    let first = build.build_output(&main, &deps);
    let second = build.build_output(&main, &deps);
    assert_eq!(first, second);
}

#[test]
fn declaration_order_cannot_show_through_a_sorted_build() {
    let declare = |names: &[&str]| -> Vec<Dependency> {
        names
            .iter()
            .map(|n| Dependency {
                name: String::from(*n),
                url: None,
            })
            .collect()
    };
    let body = |name: &str| -> Vec<String> { strings(&[&format!("REM {}", name)]) };
    let main = strings(&["PRINT 1"]);
    let mut outputs = Vec::new();
    for order in [&["a", "b", "c"][..], &["c", "a", "b"][..], &["b", "c", "a"][..]] {
        let sorted = sort_dependencies(&declare(order));
        let sources: Vec<DepSource> = sorted
            .iter()
            .map(|d| DepSource {
                name: d.name.clone(),
                lines: body(&d.name),
            })
            .collect();
        outputs.push(assemble(&main, &sources));
    }
    assert_eq!(outputs[0], outputs[1]);
    assert_eq!(outputs[1], outputs[2]);
}

#[test]
fn labels_resolve_across_dependency_boundaries() {
    // A jump in the main file may name a label that a dependency
    // declares further down: the table is built before numbering.
    let mut package = Package::default();
    package.numbering = 10;
    package.width = 200;
    package.labels = true;
    let build = BuildCommand::new(Config {
        package,
        dependencies: Some(Vec::new()),
    });
    let main = strings(&["GOTO helper"]);
    let deps = vec![dep("h", &["LABEL helper", "RETURN"])];
    let out = build.build_output(&main, &deps);
    // The assembled document: the main line, five banner lines, then
    // the declaration at position 6 and the body line; the label
    // resolves to (6 + 2) * 10.
    assert_eq!(out[0], "10 GOTO 80");
    assert_eq!(out[6], "70 :");
    assert_eq!(out[7], "80 RETURN");
}
