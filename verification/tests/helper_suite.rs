use novelcore::book::{book_extract_techniques, BookAnalysis, BookAnalysisResult};
use novelcore::chapters::extract_chapters;
use novelcore::export::{chapter_to_xhtml, escape_xhtml, wrap_text};
use novelcore::modification::{ChangeSet, FileModification, FileModificationStatus};
use novelcore::outline::{
    beat_name, default_arc_steps_for_archetype, default_story_templates,
    generate_arc_map_and_fill_defaults, ArchetypeDb, PlotNodeTemplateDb, SpecKitStyleConfig,
    StorySpec, StorySpecCharacter, StorySpecChapter, StorySpecScene, StorySpecStory,
    StorySpecStructure,
};
use novelcore::risk::{
    clamp_text, extract_json_block, normalize_risk_level, parse_risk_scan_result,
    risk_level_rank, trim_for_risk_scan,
};
use novelcore::text::{i64_to_string, str_contains, str_trim, u64_to_string};
use novelcore::workspace::{
    normalize_no_whitespace, normalize_plaintext, normalize_project_writing_settings,
    parse_composer_directive, parse_launch_mode, parse_writer_mode_alias,
    validate_relative_path, LaunchMode, ProjectWritingSettings,
};

#[test]
fn decimal_strings_are_exact() {
    assert_eq!(u64_to_string(0), "0");
    assert_eq!(u64_to_string(1234567890), "1234567890");
    assert_eq!(i64_to_string(-42), "-42");
    assert_eq!(i64_to_string(7), "7");
}

#[test]
fn contains_and_trim_behave() {
    assert!(str_contains("hay max_tokens stack", "max_tokens"));
    assert!(!str_contains("hay", "needle"));
    assert_eq!(str_trim("  \t x y \n"), "x y");
}

#[test]
fn clamp_text_keeps_short_text_and_marks_cuts() {
    assert_eq!(clamp_text("hello", 10), "hello");
    assert_eq!(clamp_text("hello", 3), "hel...");
    assert_eq!(clamp_text("hello", 0), "");
    assert_eq!(clamp_text("你好世界", 2), "你好...");
}

#[test]
fn json_block_spans_first_to_last_brace() {
    assert_eq!(
        extract_json_block("noise {\"a\":1} trailing"),
        Some("{\"a\":1}".to_string())
    );
    assert_eq!(
        extract_json_block("{\"a\":{\"b\":2}}"),
        Some("{\"a\":{\"b\":2}}".to_string())
    );
    assert_eq!(extract_json_block("no braces"), None);
    assert_eq!(extract_json_block("} {"), None);
}

#[test]
fn trim_for_risk_scan_elides_the_middle() {
    assert_eq!(trim_for_risk_scan("short", 10), "short");
    assert_eq!(
        trim_for_risk_scan("abcdefghij", 4),
        "ab\n\n...[中间内容已省略，约 6 字符]...\n\nij"
    );
}

#[test]
fn risk_levels_are_graded() {
    assert_eq!(normalize_risk_level(" HIGH "), "high");
    assert_eq!(normalize_risk_level("critical"), "high");
    assert_eq!(normalize_risk_level("严重"), "high");
    assert_eq!(normalize_risk_level("Moderate"), "medium");
    assert_eq!(normalize_risk_level("中等"), "medium");
    assert_eq!(normalize_risk_level("whatever"), "low");
    assert_eq!(risk_level_rank("high"), 3);
    assert_eq!(risk_level_rank("medium"), 2);
    assert_eq!(risk_level_rank("low"), 1);
    assert_eq!(risk_level_rank("??"), 1);
}

#[test]
fn a_scan_reply_with_json_is_normalized() {
    let raw = "Here you go: {\"summary\":\"  two issues  \",\"overall_level\":\"HIGH\",\"findings\":[{\"level\":\"high\",\"category\":\"\",\"excerpt\":\" bad bit \",\"reason\":\"r\",\"suggestion\":\"s\",\"line_start\":3,\"line_end\":0}]}";
    let result = parse_risk_scan_result(raw, 77);
    assert_eq!(result.scanned_chars, 77);
    assert_eq!(result.summary, "two issues");
    assert_eq!(result.overall_level, "high");
    assert_eq!(result.findings.len(), 1);
    assert_eq!(result.findings[0].category, "other");
    assert_eq!(result.findings[0].excerpt, "bad bit");
    assert_eq!(result.findings[0].line_start, Some(3));
    assert_eq!(result.findings[0].line_end, None);
}

#[test]
fn a_scan_reply_without_json_becomes_a_medium_summary() {
    let result = parse_risk_scan_result("  no json at all  ", 5);
    assert_eq!(result.summary, "no json at all");
    assert_eq!(result.overall_level, "medium");
    assert!(result.findings.is_empty());
    assert_eq!(result.scanned_chars, 5);
}

#[test]
fn relative_paths_are_policed() {
    assert_eq!(validate_relative_path("a/b.txt").unwrap(), "a/b.txt");
    assert_eq!(validate_relative_path("./a").unwrap(), "./a");
    assert_eq!(
        validate_relative_path("/etc/passwd").unwrap_err(),
        "absolute path is not allowed"
    );
    assert_eq!(
        validate_relative_path("a/../b").unwrap_err(),
        "invalid relative path"
    );
    assert_eq!(validate_relative_path("..").unwrap_err(), "invalid relative path");
    assert_eq!(validate_relative_path("a/..b/c").unwrap(), "a/..b/c");
}

#[test]
fn launch_modes_parse_or_reject() {
    assert!(matches!(parse_launch_mode(" picker "), Ok(LaunchMode::Picker)));
    assert!(matches!(parse_launch_mode("auto_last"), Ok(LaunchMode::AutoLast)));
    assert_eq!(parse_launch_mode("other").unwrap_err(), "invalid launch mode");
}

#[test]
fn writer_mode_aliases_resolve() {
    assert_eq!(parse_writer_mode_alias(" Normal "), Some("normal"));
    assert_eq!(parse_writer_mode_alias("大纲"), Some("plan"));
    assert_eq!(parse_writer_mode_alias("SPEC"), Some("spec"));
    assert_eq!(parse_writer_mode_alias("细纲"), Some("spec"));
    assert_eq!(parse_writer_mode_alias("nope"), None);
}

#[test]
fn writing_settings_are_clamped() {
    let v = ProjectWritingSettings {
        chapter_word_target: 999999,
        auto_min_chars: 1,
        auto_max_chars: 1,
        auto_max_rounds: 0,
        auto_max_chapter_advances: 999,
    };
    let n = normalize_project_writing_settings(v);
    assert_eq!(n.chapter_word_target, 200000);
    assert_eq!(n.auto_min_chars, 120);
    assert_eq!(n.auto_max_chars, 180);
    assert_eq!(n.auto_max_rounds, 1);
    assert_eq!(n.auto_max_chapter_advances, 200);
    let tight = ProjectWritingSettings {
        chapter_word_target: 100,
        auto_min_chars: 19000,
        auto_max_chars: 200,
        auto_max_rounds: 5,
        auto_max_chapter_advances: 3,
    };
    let t = normalize_project_writing_settings(tight);
    // the ceiling may not undercut the floor
    assert_eq!(t.auto_min_chars, 19000);
    assert_eq!(t.auto_max_chars, 19000);
}

#[test]
fn whitespace_is_stripped_for_counting() {
    assert_eq!(normalize_no_whitespace(" a b\tc\nd "), "abcd");
    assert_eq!(normalize_no_whitespace("全 角　空 格"), "全角空格");
}

#[test]
fn xhtml_escaping_covers_all_five() {
    assert_eq!(escape_xhtml("<a&\"'>"), "&lt;a&amp;&quot;&apos;&gt;");
    assert_eq!(escape_xhtml("plain"), "plain");
}

#[test]
fn a_chapter_renders_as_paragraphs() {
    let page = chapter_to_xhtml("T&C", "first line\n\n second line  \n");
    assert!(page.contains("<title>T&amp;C</title>"));
    assert!(page.contains("<h2>T&amp;C</h2>"));
    assert!(page.contains("<p>first line</p><p> second line</p>"));
    assert!(!page.contains("<p></p>"));
}

#[test]
fn wrapping_cuts_exact_width_lines() {
    let lines = wrap_text("abcde\nfg", 2);
    assert_eq!(
        lines,
        vec![
            "ab".to_string(),
            "cd".to_string(),
            "e".to_string(),
            "".to_string(),
            "fg".to_string(),
            "".to_string(),
        ]
    );
}

#[test]
fn fresh_book_analyses_start_pending() {
    let r = BookAnalysisResult::new("我的书");
    assert_eq!(r.title, "我的书");
    assert_eq!(r.source, "unknown");
    assert_eq!(r.structure.structure_type, "pending");
    assert!(r.plot_arcs.is_empty());
    let b = BookAnalysis::new("t");
    assert_eq!(b.outline.genre, "未知");
    assert_eq!(b.total_words, 0);
}

#[test]
fn the_story_templates_carry_the_canonical_beats() {
    let templates = default_story_templates();
    assert_eq!(templates.len(), 3);
    let ids: Vec<&str> = templates.iter().map(|t| t.template_id.as_str()).collect();
    assert_eq!(ids, vec!["coming_of_age", "revenge", "romance"]);
    for t in &templates {
        assert_eq!(t.beats.len(), 7);
        assert_eq!(t.beats[0].beat_id, "hook");
        assert_eq!(t.beats[6].beat_id, "resolution");
    }
}

#[test]
fn beat_names_fall_back_to_the_identifier() {
    assert_eq!(beat_name("hook"), "开场钩子");
    assert_eq!(beat_name("climax"), "高潮");
    assert_eq!(beat_name("custom_beat"), "custom_beat");
}

#[test]
fn arc_steps_depend_on_the_archetype() {
    assert_eq!(default_arc_steps_for_archetype("hero").len(), 7);
    assert_eq!(default_arc_steps_for_archetype("antagonist").len(), 5);
    assert_eq!(default_arc_steps_for_archetype("mentor").len(), 3);
    assert_eq!(default_arc_steps_for_archetype("sidekick").len(), 3);
}

fn scene(id: &str) -> StorySpecScene {
    StorySpecScene {
        id: id.to_string(),
        goal: String::new(),
        conflict: String::new(),
        stakes: String::new(),
        turn: String::new(),
        pov: "third_limited".to_string(),
        location: String::new(),
        characters: Vec::new(),
    }
}

fn chapter(id: &str, beat: &str) -> StorySpecChapter {
    StorySpecChapter {
        id: id.to_string(),
        title: id.to_string(),
        act: "act1".to_string(),
        target_words: 3000,
        beat_id: beat.to_string(),
        scenes: vec![scene("s")],
    }
}

#[test]
fn the_arc_map_fills_defaults_and_maps_present_beats() {
    let mut spec = StorySpec {
        spec_kit_version: "1.0.0".to_string(),
        story: StorySpecStory {
            title: String::new(),
            logline: String::new(),
            story_type: "coming_of_age".to_string(),
            target_words: 100000,
            theme_statement: String::new(),
            theme_keywords: Vec::new(),
            style: SpecKitStyleConfig {
                pov: "third_limited".to_string(),
                tense: "past".to_string(),
                tone: "serious".to_string(),
            },
        },
        structure: StorySpecStructure { acts: Vec::new() },
        characters: vec![StorySpecCharacter {
            id: "c1".to_string(),
            name: "主角".to_string(),
            archetype_id: "hero".to_string(),
            want: String::new(),
            need: String::new(),
            lie: String::new(),
            arc_steps: Vec::new(),
        }],
        chapters: vec![chapter("ch1", "hook"), chapter("ch2", "climax")],
    };
    let map = generate_arc_map_and_fill_defaults(&mut spec);
    assert_eq!(map.spec_kit_version, "1.0.0");
    assert_eq!(map.character_maps.len(), 1);
    assert_eq!(spec.characters[0].arc_steps.len(), 7);
    let steps = &map.character_maps[0].beat_to_arc_step_index;
    assert_eq!(steps.len(), 2);
    assert!(steps.contains(&("hook".to_string(), 0)));
    assert!(steps.contains(&("climax".to_string(), 5)));
}

#[test]
fn a_change_set_is_stamped_and_pending() {
    let files = vec![FileModification {
        file_path: "a.txt".to_string(),
        original_content: "x".to_string(),
        modifications: Vec::new(),
        status: FileModificationStatus::Pending,
    }];
    let cs = ChangeSet::new(files);
    assert!(cs.id.starts_with("changeset-"));
    assert_eq!(cs.files.len(), 1);
}

#[test]
fn plaintext_normalization_drops_indent_and_blank_lines() {
    assert_eq!(normalize_plaintext("  first\n\n\tsecond  \n"), "first\nsecond");
    assert_eq!(normalize_plaintext("\n\n"), "");
    assert_eq!(normalize_plaintext("one"), "one");
}

#[test]
fn composer_directives_parse() {
    let plain = parse_composer_directive("  hello there  ".to_string());
    assert!(!plain.matched);
    assert_eq!(plain.content, "hello there");

    let auto_on = parse_composer_directive("/auto on".to_string());
    assert!(auto_on.matched);
    assert_eq!(auto_on.auto_action.as_deref(), Some("on"));
    assert_eq!(auto_on.content, "");

    let auto_toggle = parse_composer_directive("/AUTO".to_string());
    assert!(auto_toggle.matched);
    assert_eq!(auto_toggle.auto_action.as_deref(), Some("toggle"));

    let mode = parse_composer_directive("/plan write the outline".to_string());
    assert!(mode.matched);
    assert_eq!(mode.requested_mode.as_deref(), Some("plan"));
    assert_eq!(mode.content, "write the outline");

    let unknown = parse_composer_directive("/frobnicate x".to_string());
    assert!(!unknown.matched);
    assert_eq!(unknown.content, "/frobnicate x");
}

#[test]
fn techniques_are_recognized_from_cues() {
    let t = book_extract_techniques("他冷笑一声，修为尽显。");
    assert_eq!(t.len(), 2);
    assert_eq!(t[0].category, "setting");
    assert_eq!(t[1].category, "dialogue");
    let none = book_extract_techniques("plain text");
    assert_eq!(none.len(), 1);
    assert_eq!(none[0].category, "narrative");
    assert_eq!(none[0].technique, "progressive narrative");
}

#[test]
fn chapters_are_cut_at_title_lines() {
    let text = "引子被忽略\n第一章 启程\n云起。\n风动。\n第二章 相逢\n第三章 归途\n尘埃落定 了\n";
    let chapters = extract_chapters(text);
    // the empty second chapter is dropped but still consumes its number
    assert_eq!(chapters.len(), 2);
    assert_eq!(chapters[0].id, 1);
    assert_eq!(chapters[0].title, "第一章 启程");
    assert_eq!(chapters[0].start_line, 1);
    assert_eq!(chapters[0].end_line, 3);
    assert_eq!(chapters[0].word_count, 6);
    assert_eq!(chapters[0].summary, "约6字");
    assert_eq!(chapters[1].id, 3);
    assert_eq!(chapters[1].title, "第三章 归途");
    assert_eq!(chapters[1].start_line, 5);
    assert_eq!(chapters[1].end_line, 6);
    assert_eq!(chapters[1].word_count, 5);
}

#[test]
fn a_text_without_titles_has_no_chapters() {
    assert!(extract_chapters("just prose\nacross lines\n").is_empty());
}

#[test]
fn the_builtin_databases_are_complete() {
    let archetypes = ArchetypeDb::default();
    assert_eq!(archetypes.spec_kit_version, "1.0.0");
    assert_eq!(archetypes.archetypes.len(), 3);
    assert_eq!(archetypes.archetypes[0].id, "hero");
    assert_eq!(archetypes.archetypes[2].role, "antagonist");
    let nodes = PlotNodeTemplateDb::default();
    assert_eq!(nodes.nodes.len(), 7);
    assert_eq!(nodes.nodes[0].id, "hook");
    assert_eq!(nodes.nodes[0].name, "开场钩子");
    assert_eq!(nodes.nodes[6].id, "resolution");
    assert_eq!(nodes.nodes[6].required_fields, vec!["new_normal".to_string()]);
}

#[test]
fn default_arc_steps_carry_the_archetype_texts() {
    let hero = default_arc_steps_for_archetype("hero");
    assert_eq!(hero[0], "旧世界：被谎言束缚");
    assert_eq!(hero[6], "新平衡：以新自我生活");
    let antagonist = default_arc_steps_for_archetype("antagonist");
    assert_eq!(antagonist[4], "终局：败北或付出代价");
    let other = default_arc_steps_for_archetype("sidekick");
    assert_eq!(other, vec!["起点".to_string(), "变化".to_string(), "结局".to_string()]);
}

#[test]
fn the_arc_map_is_bounded_and_idempotent() {
    let canonical = [
        "hook",
        "inciting_incident",
        "turning_point_1",
        "midpoint",
        "turning_point_2",
        "climax",
        "resolution",
    ];
    let mut spec = StorySpec {
        spec_kit_version: "1.0.0".to_string(),
        story: StorySpecStory {
            title: String::new(),
            logline: String::new(),
            story_type: "revenge".to_string(),
            target_words: 80000,
            theme_statement: String::new(),
            theme_keywords: Vec::new(),
            style: SpecKitStyleConfig {
                pov: "third_limited".to_string(),
                tense: "past".to_string(),
                tone: "serious".to_string(),
            },
        },
        structure: StorySpecStructure { acts: Vec::new() },
        characters: vec![
            StorySpecCharacter {
                id: "c1".to_string(),
                name: "主角".to_string(),
                archetype_id: "hero".to_string(),
                want: String::new(),
                need: String::new(),
                lie: String::new(),
                arc_steps: Vec::new(),
            },
            StorySpecCharacter {
                id: "c2".to_string(),
                name: "对手".to_string(),
                archetype_id: "antagonist".to_string(),
                want: String::new(),
                need: String::new(),
                lie: String::new(),
                arc_steps: vec!["已有步骤".to_string()],
            },
        ],
        chapters: vec![
            chapter("ch1", "hook"),
            chapter("ch2", "midpoint"),
            chapter("ch3", "climax"),
        ],
    };
    let first = generate_arc_map_and_fill_defaults(&mut spec);
    // the empty hero arc was filled with the archetype's texts
    assert_eq!(spec.characters[0].arc_steps[0], "旧世界：被谎言束缚");
    // the pre-filled arc was kept
    assert_eq!(spec.characters[1].arc_steps, vec!["已有步骤".to_string()]);
    // keys are canonical beats present in the chapters, indices in range
    for (i, cm) in first.character_maps.iter().enumerate() {
        for (beat, idx) in &cm.beat_to_arc_step_index {
            assert!(canonical.contains(&beat.as_str()));
            assert!(spec.chapters.iter().any(|c| c.beat_id == *beat));
            assert!(*idx < spec.characters[i].arc_steps.len());
        }
    }
    // the one-step antagonist arc clamps every mapped step to index zero
    assert!(first.character_maps[1]
        .beat_to_arc_step_index
        .iter()
        .all(|(_, idx)| *idx == 0));
    // a second call changes nothing and returns the same map
    let chapters_before: Vec<String> = spec.chapters.iter().map(|c| c.id.clone()).collect();
    let arcs_before: Vec<Vec<String>> =
        spec.characters.iter().map(|c| c.arc_steps.clone()).collect();
    let second = generate_arc_map_and_fill_defaults(&mut spec);
    let chapters_after: Vec<String> = spec.chapters.iter().map(|c| c.id.clone()).collect();
    let arcs_after: Vec<Vec<String>> =
        spec.characters.iter().map(|c| c.arc_steps.clone()).collect();
    assert_eq!(chapters_before, chapters_after);
    assert_eq!(arcs_before, arcs_after);
    assert_eq!(first.character_maps.len(), second.character_maps.len());
    for (a, b) in first.character_maps.iter().zip(second.character_maps.iter()) {
        assert_eq!(a.character_id, b.character_id);
        assert_eq!(a.character_name, b.character_name);
        assert_eq!(a.archetype_id, b.archetype_id);
        assert_eq!(a.beat_to_arc_step_index, b.beat_to_arc_step_index);
    }
}
