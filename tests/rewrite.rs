use import_alias::path::{is_node_modules, is_ts_file, src_distance};
use import_alias::rewrite::{import_depth, rewrite_content, rewrite_line, LineRewrite};

fn rewritten(r: LineRewrite) -> Option<String> {
    match r {
        LineRewrite::Rewritten(s) => Some(s),
        _ => None,
    }
}

#[test]
fn test_depth_from_src_dir() {
    let path = "C:/Users/ponbac/Dev/spinit/hexagon/src/app/src/components/test.ts";
    assert_eq!(src_distance(path), 1);

    let path = "C:/Users/ponbac/Dev/spinit/hexagon/src/app/src/components/nested/test.ts";
    assert_eq!(src_distance(path), 2);

    let path = "C:/Users/ponbac/Dev/spinit/hexagon/src/test.ts";
    assert_eq!(src_distance(path), 0);
}

#[test]
fn test_import_depth() {
    let line = "import { ConfirmRemoveModal } from '../../../../../../../Components/ConfirmRemoveModal/ConfirmRemoveModal';";
    assert_eq!(import_depth(line), 7);
}

#[test]
fn depth_without_src_counts_to_the_top() {
    assert_eq!(src_distance("a/b/c.ts"), 3);
    assert_eq!(src_distance("/a/b.ts"), 2);
    assert_eq!(src_distance("test.ts"), 1);
    assert_eq!(src_distance(""), 0);
}

#[test]
fn depth_reads_components_like_std_paths() {
    assert_eq!(src_distance("src//a/./b/x.ts"), 2);
    assert_eq!(src_distance("/src/x.ts"), 0);
    assert_eq!(src_distance("./a/x.ts"), 3);
}

#[test]
fn import_depth_without_segments_is_zero() {
    assert_eq!(import_depth("import Default from './sibling';"), 0);
    assert_eq!(import_depth("   "), 0);
    assert_eq!(import_depth(""), 0);
}

#[test]
fn import_depth_reads_only_the_last_token() {
    assert_eq!(import_depth("import ../a from '../b';"), 1);
    assert_eq!(import_depth("import x from '../../y';  \t"), 2);
    assert_eq!(import_depth("import x from\u{3000}'../../y';"), 2);
    assert_eq!(import_depth("import x from '.../../y';"), 2);
}

#[test]
fn rewrite_at_matching_depth() {
    let r = rewrite_line("import { X } from '../../Foo/Bar';", 2);
    assert_eq!(rewritten(r), Some("import { X } from '@/Foo/Bar';".to_string()));
}

#[test]
fn no_rewrite_at_other_depth() {
    let r = rewrite_line("import { X } from '../../Foo/Bar';", 1);
    assert!(matches!(r, LineRewrite::Unchanged));
    let r = rewrite_line("import { X } from '../../Foo/Bar';", 3);
    assert!(matches!(r, LineRewrite::Unchanged));
}

#[test]
fn no_rewrite_without_ascent() {
    for depth in 0..4 {
        let r = rewrite_line("import Default from './sibling';", depth);
        assert!(matches!(r, LineRewrite::Unchanged));
    }
}

#[test]
fn non_import_line_passes_through() {
    for depth in 0..4 {
        let r = rewrite_line("export const x = 1;", depth);
        assert!(matches!(r, LineRewrite::Unchanged));
    }
    let r = rewrite_line("  import x from '../y';", 1);
    assert!(matches!(r, LineRewrite::Unchanged));
}

#[test]
fn due_line_without_quotes_is_malformed() {
    let r = rewrite_line("import x from \"../y\";", 1);
    assert!(matches!(r, LineRewrite::Malformed));
    let r = rewrite_line("import x from '../y;", 1);
    assert!(matches!(r, LineRewrite::Malformed));
}

#[test]
fn rewrite_keeps_head_and_tail_up_to_a_third_quote() {
    let r = rewrite_line("import a from '../x/../y' ; // 'c'", 2);
    assert_eq!(import_depth("import a from '../x/../y' ; // 'c'"), 0);
    assert!(matches!(r, LineRewrite::Unchanged));
    let r = rewrite_line("import a from '../x/../y';", 2);
    assert_eq!(rewritten(r), Some("import a from '@/x/y';".to_string()));
    let r = rewrite_line("import a from '../x';'b'", 1);
    assert_eq!(rewritten(r), Some("import a from '@/x';".to_string()));
}

#[test]
fn content_rewrite_joins_lines() {
    let content = "import { X } from '../../Foo/Bar';\r\nexport const x = 1;\nimport y from './y';\n";
    let r = rewrite_content(content, 2);
    assert_eq!(r.lines.len(), 3);
    assert_eq!(r.lines[0], "import { X } from '../../Foo/Bar';");
    assert_eq!(r.outcomes.len(), 3);
    assert!(matches!(r.outcomes[0], LineRewrite::Rewritten(_)));
    assert!(matches!(r.outcomes[1], LineRewrite::Unchanged));
    assert!(matches!(r.outcomes[2], LineRewrite::Unchanged));
    assert_eq!(
        r.new_content,
        Some("import { X } from '@/Foo/Bar';\nexport const x = 1;\nimport y from './y';".to_string())
    );
}

#[test]
fn content_without_rewrite_is_left_alone() {
    let content = "import { X } from '../../Foo/Bar';\nexport const x = 1;\n";
    let r = rewrite_content(content, 1);
    assert_eq!(r.lines.len(), 2);
    assert_eq!(r.new_content, None);
    let r = rewrite_content("", 1);
    assert_eq!(r.lines.len(), 0);
    assert_eq!(r.new_content, None);
}

#[test]
fn rewriting_twice_changes_nothing_more() {
    let content = "import { X } from '../../Foo/Bar';\nimport z from '../../a/b';";
    let first = rewrite_content(content, 2).new_content.unwrap();
    assert_eq!(first, "import { X } from '@/Foo/Bar';\nimport z from '@/a/b';");
    let second = rewrite_content(&first, 2);
    assert_eq!(second.new_content, None);
}

#[test]
fn script_files_by_extension() {
    assert!(is_ts_file("src/a/b.ts"));
    assert!(is_ts_file("src/a/b.tsx"));
    assert!(is_ts_file("x.d.ts"));
    assert!(!is_ts_file("src/a/b.js"));
    assert!(!is_ts_file("src/a/.ts"));
    assert!(!is_ts_file("src/a/b.tsx.bak"));
    assert!(!is_ts_file(""));
    assert!(is_ts_file("dir/b.ts/"));
}

#[test]
fn node_modules_is_pruned() {
    assert!(is_node_modules("node_modules"));
    assert!(!is_node_modules("node_modules2"));
    assert!(!is_node_modules("src"));
    assert!(!is_node_modules(""));
}
