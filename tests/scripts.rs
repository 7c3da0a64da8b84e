use scriptgen::batch::generate_scripts;
use scriptgen::config::{parse_u8, Config, ToolError};
use scriptgen::dataset::{keep_data_lines, load_dataset, split_lines};
use scriptgen::partition::{partition, partition_ranges};
use scriptgen::script::{render_document, script_filename, script_header};
use scriptgen::text::{chars_of, contains_char, decimal_string, replace_all};

const HEADER_TAIL: &str = "/\"\nsys.path.append(os.path.abspath(scriptpath))\nimport helpers\nimport bpy\n\n# Animation name in blender & end frame\nanimationArray = [\n";

fn args(items: &[&str]) -> Vec<String> {
    items.iter().map(|s| s.to_string()).collect()
}

fn strings(items: &[&str]) -> Vec<String> {
    items.iter().map(|s| s.to_string()).collect()
}

fn config(count: u8, dataset: &str, template: &str) -> Config {
    Config {
        script_count: count,
        dataset_file: dataset.to_string(),
        template_file: template.to_string(),
    }
}

#[test]
fn config_reads_three_arguments() {
    let c = Config::new(&args(&["tool", "4", "noWeaponAnims.txt", "unified.py"])).unwrap();
    assert_eq!(c.script_count, 4);
    assert_eq!(c.dataset_file, "noWeaponAnims.txt");
    assert_eq!(c.template_file, "unified.py");
}

#[test]
fn config_ignores_extra_arguments() {
    let c = Config::new(&args(&["tool", "255", "a.txt", "b.py", "extra"])).unwrap();
    assert_eq!(c.script_count, 255);
}

#[test]
fn config_missing_arguments_names_invocation() {
    match Config::new(&args(&["render-tool", "1", "a.txt"])) {
        Err(ToolError::MissingArguments(m)) => {
            assert!(m.starts_with("Not enough arguments!\n"));
            assert!(m.contains("Eg. render-tool.exe \"1\" \"noWeaponAnims.txt\" \"batchrender-noweapons.py\""));
        }
        _ => panic!("expected MissingArguments"),
    }
}

#[test]
fn config_usage_message_exact() {
    match Config::new(&args(&["tool"])) {
        Err(ToolError::MissingArguments(m)) => assert_eq!(
            m,
            "Not enough arguments!\nArguments must be amount of scripts to create, animation data filename and filename for python script body\nEg. tool.exe \"1\" \"noWeaponAnims.txt\" \"batchrender-noweapons.py\""
        ),
        _ => panic!("expected MissingArguments"),
    }
}

#[test]
fn config_missing_arguments_without_any() {
    match Config::new(&args(&[])) {
        Err(ToolError::MissingArguments(m)) => assert!(m.contains("Eg. .exe \"1\"")),
        _ => panic!("expected MissingArguments"),
    }
}

#[test]
fn config_rejects_zero_scripts() {
    match Config::new(&args(&["tool", "0", "a.txt", "b.py"])) {
        Err(ToolError::InvalidArgument(a)) => assert_eq!(a, "0"),
        _ => panic!("expected InvalidArgument"),
    }
}

#[test]
fn config_rejects_bad_counts() {
    for bad in ["256", "-1", "x", "", "+", "1 ", "3.0", "99999999999999999999"] {
        match Config::new(&args(&["tool", bad, "a.txt", "b.py"])) {
            Err(ToolError::InvalidArgument(a)) => assert_eq!(a, bad),
            _ => panic!("expected InvalidArgument for {:?}", bad),
        }
    }
}

#[test]
fn parse_u8_matches_std() {
    for s in ["0", "7", "+7", "007", "255", "256", "", "+", "-0", "12a", " 1", "1000"] {
        assert_eq!(parse_u8(s), s.parse::<u8>().ok(), "on {:?}", s);
    }
}

#[test]
fn split_lines_endings() {
    assert_eq!(split_lines("a\nb\r\nc"), strings(&["a", "b", "c"]));
    assert_eq!(split_lines("a\nb\n"), strings(&["a", "b"]));
    assert_eq!(split_lines(""), Vec::<String>::new());
    assert_eq!(split_lines("\n\n"), strings(&["", ""]));
    assert_eq!(split_lines("x\r"), strings(&["x\r"]));
    assert_eq!(split_lines("\r\n \t\r\n"), strings(&["", " \t"]));
}

#[test]
fn comment_lines_dropped_anywhere() {
    let lines = strings(&["\"A\", 10", "; ignore me", "\"B\", 20 ; tail", "  \"C\", 3  "]);
    assert_eq!(keep_data_lines(&lines), strings(&["\"A\", 10", "  \"C\", 3  "]));
}

#[test]
fn load_dataset_keeps_order_and_spacing() {
    let data = load_dataset("\"A\", 10\r\n; ignore me\n  \"B\", 20\n");
    assert_eq!(data, strings(&["\"A\", 10", "  \"B\", 20"]));
}

#[test]
fn ranges_put_remainder_last() {
    assert_eq!(partition_ranges(10, 3), vec![(0, 3), (3, 6), (6, 10)]);
    assert_eq!(partition_ranges(9, 3), vec![(0, 3), (3, 6), (6, 9)]);
    assert_eq!(partition_ranges(7, 1), vec![(0, 7)]);
    assert_eq!(partition_ranges(2, 4), vec![(0, 0), (0, 0), (0, 0), (0, 2)]);
}

#[test]
fn five_lines_two_scripts() {
    let data = strings(&["1", "2", "3", "4", "5"]);
    let groups = partition(&data, 2);
    assert_eq!(groups, vec![strings(&["1", "2"]), strings(&["3", "4", "5"])]);
}

#[test]
fn groups_rejoin_to_dataset() {
    let data: Vec<String> = (0..23).map(|i| i.to_string()).collect();
    for n in 1..=30u8 {
        let groups = partition(&data, n);
        assert_eq!(groups.len(), n as usize);
        let joined: Vec<String> = groups.concat();
        assert_eq!(joined, data);
        for g in &groups[..groups.len() - 1] {
            assert_eq!(g.len(), 23 / n as usize);
        }
        assert_eq!(groups[groups.len() - 1].len(), 23 / n as usize + 23 % n as usize);
    }
}

#[test]
fn filename_from_unified_template() {
    assert_eq!(script_filename("unified.py", "noWeaponAnims.txt", 0), "noWeaponAnims0.py");
    assert_eq!(script_filename("unified.py", "noWeaponAnims.txt", 12), "noWeaponAnims12.py");
}

#[test]
fn filename_without_markers_unchanged() {
    assert_eq!(script_filename("batchrender-noweapons.py", "a.txt", 3), "batchrender-noweapons.py");
    assert_eq!(script_filename("list.txt", "a.txt", 255), "list255.py");
}

#[test]
fn filename_replaces_only_trailing_extension() {
    assert_eq!(script_filename("a.txtb", "d", 0), "a.txtb");
    assert_eq!(script_filename("notes.txt.txt", "d", 3), "notes.txt3.py");
    assert_eq!(script_filename("unified.py", "anims.txt.bak", 1), "anims.txt.bak");
    assert_eq!(script_filename("unified.py", "x.txt", 5), "x5.py");
    assert_eq!(script_filename("t", "d", 0), "t");
}

#[test]
fn filename_is_repeatable() {
    let a = script_filename("pre_unified.py", "set.txt", 7);
    let b = script_filename("pre_unified.py", "set.txt", 7);
    assert_eq!(a, b);
    assert_eq!(a, "pre_set7.py");
}

#[test]
fn replace_all_occurrences() {
    assert_eq!(replace_all("aXbXc", "X", "yy"), "ayybyyc");
    assert_eq!(replace_all("aaaa", "aa", "b"), "bb");
    assert_eq!(replace_all("abc", "zz", "q"), "abc");
    assert_eq!(replace_all("ab", "", "-"), "ab");
}

#[test]
fn decimal_strings() {
    assert_eq!(decimal_string(0), "0");
    assert_eq!(decimal_string(9), "9");
    assert_eq!(decimal_string(10), "10");
    assert_eq!(decimal_string(42), "42");
    assert_eq!(decimal_string(100), "100");
    assert_eq!(decimal_string(255), "255");
}

#[test]
fn chars_and_contains() {
    assert_eq!(chars_of("aé;"), vec!['a', 'é', ';']);
    assert!(contains_char("ab;c", ';'));
    assert!(!contains_char("abc", ';'));
}

#[test]
fn header_uses_forward_slashes() {
    let h = script_header("C:\\Users\\me\\render");
    assert_eq!(h, format!("import os\nimport sys\nscriptpath = \"C:/Users/me/render{}", HEADER_TAIL));
}

#[test]
fn document_layout() {
    let doc = render_document("/w", &strings(&["x", "y"]), "BODY");
    assert_eq!(doc, format!("import os\nimport sys\nscriptpath = \"/w{}x\ny\n]\n\nBODY", HEADER_TAIL));
}

#[test]
fn one_script_without_comments() {
    let text = "\"A\", 10\n\"B\", 20\n; ignore me\n";
    let out = generate_scripts(&config(1, "noWeaponAnims.txt", "unified.py"), "/work", text, "body()\n");
    assert_eq!(out.len(), 1);
    assert_eq!(out[0].filename, "noWeaponAnims0.py");
    let expected = format!(
        "import os\nimport sys\nscriptpath = \"/work{}\"A\", 10\n\"B\", 20\n]\n\nbody()\n",
        HEADER_TAIL
    );
    assert_eq!(out[0].contents, expected);
    assert!(!out[0].contents.contains("ignore me"));
}

#[test]
fn two_scripts_split_five_lines() {
    let out = generate_scripts(&config(2, "d.txt", "unified.py"), "/w", "1\n2\n3\n4\n5\n", "");
    assert_eq!(out.len(), 2);
    assert_eq!(out[0].filename, "d0.py");
    assert_eq!(out[1].filename, "d1.py");
    assert!(out[0].contents.ends_with("[\n1\n2\n]\n\n"));
    assert!(out[1].contents.ends_with("[\n3\n4\n5\n]\n\n"));
}

#[test]
fn empty_dataset_three_scripts() {
    let out = generate_scripts(&config(3, "e.txt", "unified.py"), "/w", "", "B");
    assert_eq!(out.len(), 3);
    for (j, s) in out.iter().enumerate() {
        assert_eq!(s.filename, format!("e{}.py", j));
        assert_eq!(s.contents, format!("import os\nimport sys\nscriptpath = \"/w{}]\n\nB", HEADER_TAIL));
    }
}

#[test]
fn generation_is_repeatable() {
    let c = config(4, "anims.txt", "unified.py");
    let text = "a\nb\n;c\nd\ne\nf\ng\n";
    let first = generate_scripts(&c, "/base", text, "tail");
    let second = generate_scripts(&c, "/base", text, "tail");
    assert_eq!(first.len(), second.len());
    for (x, y) in first.iter().zip(second.iter()) {
        assert_eq!(x.filename, y.filename);
        assert_eq!(x.contents, y.contents);
    }
}
