use rcss::bundle::build_bundle;
use rcss::rules::minify;
use rcss::selector::{resolve_destination, select_files};
use rcss::walker::{walk, FsEntry};

fn cs(s: &str) -> Vec<char> {
    s.chars().collect()
}

fn ss(v: Vec<char>) -> String {
    v.into_iter().collect()
}

#[test]
fn walk_single_file() {
    let tree = FsEntry::File { path: cs("a.css") };
    let found = walk(&tree);
    assert_eq!(found.len(), 1);
    assert_eq!(ss(found[0].clone()), "a.css");
}

#[test]
fn walk_depth_first_in_entry_order() {
    let tree = FsEntry::Dir {
        entries: vec![
            FsEntry::File { path: cs("root/a.css") },
            FsEntry::Dir {
                entries: vec![
                    FsEntry::File { path: cs("root/sub/b.css") },
                    FsEntry::Dir { entries: vec![FsEntry::File { path: cs("root/sub/deep/c.txt") }] },
                ],
            },
            FsEntry::File { path: cs("root/d.css") },
        ],
    };
    let found: Vec<String> = walk(&tree).into_iter().map(ss).collect();
    assert_eq!(
        found,
        vec!["root/a.css", "root/sub/b.css", "root/sub/deep/c.txt", "root/d.css"]
    );
}

#[test]
fn walk_empty_directory() {
    let tree = FsEntry::Dir { entries: vec![] };
    assert_eq!(walk(&tree).len(), 0);
}

#[test]
fn select_keeps_only_matching_extension() {
    let paths = vec![cs("a.css"), cs("b.txt"), cs("c.css"), cs("css.md")];
    let got: Vec<String> = select_files(&paths, &cs("css"), &cs("out/style.css"))
        .into_iter()
        .map(ss)
        .collect();
    assert_eq!(got, vec!["a.css", "c.css"]);
}

#[test]
fn select_excludes_destination_path() {
    let dest = resolve_destination(&cs("assets/css"), &cs("style.css"));
    assert_eq!(ss(dest.clone()), "assets/css/style.css");
    let paths = vec![
        cs("assets/css/a.css"),
        cs("assets/css/style.css"),
        cs("assets/css/b.css"),
    ];
    let got: Vec<String> = select_files(&paths, &cs("css"), &dest).into_iter().map(ss).collect();
    assert_eq!(got, vec!["assets/css/a.css", "assets/css/b.css"]);
}

#[test]
fn select_excludes_any_path_containing_destination() {
    let paths = vec![cs("x/assets/style.css.css"), cs("x/other.css")];
    let got: Vec<String> =
        select_files(&paths, &cs("css"), &cs("assets/style.css")).into_iter().map(ss).collect();
    assert_eq!(got, vec!["x/other.css"]);
}

#[test]
fn whitespace_collapse_rule() {
    let out = rcss::rules::apply_collapse_ws(&cs("a\n\n  b"));
    assert_eq!(ss(out), "a b");
}

#[test]
fn punctuation_trimming_after_collapse() {
    let r1 = rcss::rules::apply_collapse_ws(&cs("a ,  b"));
    let r3 = rcss::rules::apply_trim_after_punct(&r1);
    let r4 = rcss::rules::apply_trim_before_punct(&r3);
    assert_eq!(ss(r4), "a,b");
}

#[test]
fn zero_shorthand_collapse() {
    assert_eq!(ss(minify(&cs("margin: 0 0 0 0;"))), "margin:0;");
}

#[test]
fn comment_removal() {
    assert_eq!(ss(minify(&cs("a/* drop me */b"))), "ab");
}

#[test]
fn comments_are_removed_non_greedily() {
    assert_eq!(ss(minify(&cs("x/* a */y/* b */z"))), "xyz");
}

#[test]
fn unclosed_comment_opening_stays() {
    assert_eq!(ss(minify(&cs("a/*b"))), "a/*b");
}

#[test]
fn shortest_comment_is_removed() {
    assert_eq!(ss(minify(&cs("a/**/b"))), "ab");
}

#[test]
fn comment_flanked_by_spaces_leaves_two_spaces() {
    // Comment removal runs last, after whitespace was already collapsed, so
    // the two surrounding spaces meet and stay.
    assert_eq!(ss(minify(&cs("a /*x*/ b"))), "a  b");
}

#[test]
fn semicolon_before_closing_brace_is_dropped() {
    assert_eq!(ss(minify(&cs("body { color: red; }"))), "body{color:red}");
}

#[test]
fn scan_does_not_rescan_rewritten_text() {
    // Seven zeros hold one "0 0 0 0" match whose replacement is not itself
    // rescanned within the same pass.
    assert_eq!(ss(minify(&cs("0 0 0 0 0 0 0"))), "0 0 0 0");
}

#[test]
fn minify_empty_input() {
    assert_eq!(ss(minify(&cs(""))), "");
}

#[test]
fn minify_is_deterministic() {
    let input = cs(".a { margin: 0 0 0 0; } /* note */ .b > p { color: blue; }");
    assert_eq!(ss(minify(&input)), ss(minify(&input)));
}

#[test]
fn second_pass_on_minified_css_is_noop() {
    let once = minify(&cs("body { color: red; }\n.h1 { margin: 0 0 0 0; }"));
    let twice = minify(&once);
    assert_eq!(ss(twice), ss(once));
}

#[test]
fn bundle_concatenates_minified_contents_in_order() {
    let a = cs("body { color: red; }");
    let b = cs("/* header */ .h1 { margin: 0 0 0 0; }");
    let bundle = build_bundle(&vec![a.clone(), b.clone()]);
    let by_hand = format!("{}{}", ss(minify(&a)), ss(minify(&b)));
    assert_eq!(ss(bundle), by_hand);
}

#[test]
fn end_to_end_two_files() {
    let tree = FsEntry::Dir {
        entries: vec![FsEntry::File { path: cs("a.css") }, FsEntry::File { path: cs("b.css") }],
    };
    let dest = resolve_destination(&cs("."), &cs("style.css"));
    let found = walk(&tree);
    let picked = select_files(&found, &cs("css"), &dest);
    assert_eq!(picked.len(), 2);
    let contents = vec![
        cs("body { color: red; }"),
        cs("/* header */ .h1 { margin: 0 0 0 0; }"),
    ];
    let bundle = ss(build_bundle(&contents));
    // The leading space survives: it sits between "*/" and ".h1", next to no
    // trimming punctuation, and the comment is only deleted afterwards.
    assert_eq!(bundle, "body{color:red} .h1{margin:0}");
}

#[test]
fn plan_resolves_destination_and_selects() {
    let tree = FsEntry::Dir {
        entries: vec![
            FsEntry::File { path: cs("assets/a.css") },
            FsEntry::File { path: cs("assets/style.css") },
            FsEntry::File { path: cs("assets/notes.txt") },
        ],
    };
    let (picked, dest) =
        rcss::bundle::plan_bundle(&tree, &cs("css"), &cs("assets"), &cs("style.css"));
    assert_eq!(ss(dest), "assets/style.css");
    let got: Vec<String> = picked.into_iter().map(ss).collect();
    assert_eq!(got, vec!["assets/a.css"]);
}

#[test]
fn bundle_of_nothing_is_empty() {
    assert_eq!(ss(build_bundle(&vec![])), "");
}
