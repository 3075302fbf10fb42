use notedoctor::parser::{extract_image_refs, extract_links};

/// What the regex crate finds with the patterns that name the two kinds
/// of reference, for comparison with the library's own reading.
fn regex_links(content: &str) -> Vec<String> {
    let re = regex::Regex::new(r"\[\[([^\[\]]+)\]\]").unwrap();
    re.captures_iter(content)
        .map(|cap| {
            let inner = &cap[1];
            match inner.split_once('|') {
                Some((target, _alias)) => target.trim().to_string(),
                None => inner.trim().to_string(),
            }
        })
        .collect()
}

fn regex_image_refs(content: &str) -> Vec<String> {
    let re = regex::Regex::new(r"!\[[^\]]*\]\(([^)]+)\)").unwrap();
    re.captures_iter(content)
        .filter_map(|cap| {
            let raw_path = cap[1].trim();
            if raw_path.starts_with("http://") || raw_path.starts_with("https://") {
                return None;
            }
            std::path::PathBuf::from(raw_path)
                .file_name()
                .and_then(|n| n.to_str())
                .map(|s| s.to_string())
        })
        .collect()
}

#[test]
fn test_extract_simple_links() {
    let links = extract_links("参见 [[笔记A]] 和 [[笔记B]]。");
    assert_eq!(links, vec!["笔记A", "笔记B"]);
}

#[test]
fn test_extract_alias_links() {
    let links = extract_links("参见 [[项目计划|点击这里]]。");
    assert_eq!(links, vec!["项目计划"]);
}

#[test]
fn test_no_links() {
    let links = extract_links("这个文件没有任何链接。");
    assert!(links.is_empty());
}

#[test]
fn test_extract_image_refs_basic() {
    let refs = extract_image_refs("![封面](assets/cover.png) 和 ![图标](icons/logo.jpg)");
    assert_eq!(refs, vec!["cover.png", "logo.jpg"]);
}

#[test]
fn test_extract_image_refs_skips_external() {
    let refs = extract_image_refs("![外链](https://example.com/img.png) ![本地](local.jpg)");
    assert_eq!(refs, vec!["local.jpg"]);
}

#[test]
fn test_extract_image_refs_empty() {
    let refs = extract_image_refs("没有任何图片引用。");
    assert!(refs.is_empty());
}

#[test]
fn links_are_trimmed_with_unicode_white_space() {
    assert_eq!(extract_links("[[  笔记\t|别名 ]] [[\u{3000}日记\u{3000}]]"), vec!["笔记", "日记"]);
}

#[test]
fn link_with_only_white_space_target_is_empty() {
    assert_eq!(extract_links("[[ |alias]]"), vec![""]);
}

#[test]
fn nested_brackets_start_a_new_link() {
    assert_eq!(extract_links("[[a[[b]]"), vec!["b"]);
    assert_eq!(extract_links("[[[x]]]"), vec!["x"]);
    assert!(extract_links("[[]] [[a] ]]").is_empty());
}

#[test]
fn link_may_span_lines_and_keep_its_path() {
    assert_eq!(extract_links("[[dir/sub\nnote]]"), vec!["dir/sub\nnote"]);
}

#[test]
fn http_and_https_images_are_left_out_but_other_schemes_kept() {
    assert_eq!(
        extract_image_refs("![a](http://x/a.png) ![b]( https://y/b.png ) ![c](ftp://z/c.png)"),
        vec!["c.png"]
    );
}

#[test]
fn image_path_components_follow_std_path_rules() {
    assert_eq!(extract_image_refs("![a](x/y/../z.png)"), vec!["z.png"]);
    assert_eq!(extract_image_refs("![a](dir/sub/)"), vec!["sub"]);
    assert_eq!(extract_image_refs("![a](dir/./)"), vec!["dir"]);
    assert!(extract_image_refs("![a](..) ![b](/) ![c](.) ![d](a/..)").is_empty());
}

#[test]
fn image_alt_text_may_hold_brackets_and_bangs() {
    assert_eq!(extract_image_refs("![[a !b](pic.jpeg)"), vec!["pic.jpeg"]);
    assert!(extract_image_refs("![[a] !b](pic.jpeg)").is_empty());
    assert!(extract_image_refs("![alt]() ![alt] (p.png) ![alt](p.png").is_empty());
}

#[test]
fn parsing_agrees_with_the_regex_crate() {
    let samples = [
        "参见 [[笔记A]] 和 [[笔记B]]。",
        "[[a|b|c]] [[ x ]] [[[y]]] [[z]",
        "![a](b) ![](c.png) ![x](y)(z) !![q](r/s.jpg)",
        "[[a]]![b](c/d.png)[[e|f]]![g]( h.png )",
        "![x](https://a/b.png) ![x](http:/a/b.png) ![x](./a/./b.PNG)",
        "[[\n]] [[\t]] [[.]] [[日记]]",
        "![a]( ) ![b](\u{3000}x.png\u{3000})",
        "![[a !b](pic.jpeg) ![[a] !b](pic.jpeg) !![![c](d.jpg)",
    ];
    for s in samples {
        assert_eq!(extract_links(s), regex_links(s), "links of {:?}", s);
        assert_eq!(extract_image_refs(s), regex_image_refs(s), "images of {:?}", s);
    }
}

#[test]
fn image_names_hold_no_close_paren_and_are_bounded_by_openings() {
    let samples = ["![a](x)(y) ![b](c/d).png)", "![![![x](p.png)", "!!![[a](b)"];
    for s in samples {
        let refs = extract_image_refs(s);
        assert!(refs.iter().all(|r| !r.contains(')')));
        assert!(refs.len() <= s.matches("![").count());
    }
    assert_eq!(extract_image_refs("![a](x)(y) ![b](c/d).png)"), vec!["x", "d"]);
}
