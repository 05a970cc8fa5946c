//! Data model for imported-book analysis and splitting.
use vstd::prelude::*;
use crate::text::{contains_seq, str_contains};

verus! {

/// Full analysis of an imported book.
pub struct BookAnalysisResult {
    pub title: String,
    pub author: Option<String>,
    pub source: String,
    pub structure: BookStructure,
    pub plot_arcs: Vec<PlotLine>,
    pub rhythm: RhythmAnalysis,
    pub climax_points: Vec<ClimaxPoint>,
    pub power_moments: Vec<PowerMoment>,
    pub characters: Vec<CharacterAnalysis>,
    pub character_relationships: Vec<CharacterRelationship>,
    pub world_settings: Vec<WorldSetting>,
    pub power_system: Vec<PowerSystem>,
    pub techniques: Vec<WritingTechnique>,
    pub summary: String,
    pub learnable_points: Vec<String>,
}

/// The act structure of a book.
pub struct BookStructure {
    pub structure_type: String,
    pub acts: Vec<Act>,
    pub pacing: String,
    pub audience: String,
}

/// One act and the chapters it spans.
pub struct Act {
    pub id: usize,
    pub name: String,
    pub chapters: Vec<usize>,
    pub description: String,
}

/// One plot line across chapters.
pub struct PlotLine {
    pub name: String,
    pub main: bool,
    pub chapters: Vec<usize>,
    pub description: String,
}

/// Pacing characteristics of a book.
pub struct RhythmAnalysis {
    pub average_chapter_length: usize,
    pub conflict_density: String,
    pub turning_points: Vec<TurningPoint>,
    pub chapter_hooks: Vec<String>,
}

/// A turn of the plot at some chapter.
pub struct TurningPoint {
    pub chapter: usize,
    pub turn_type: String,
    pub description: String,
}

/// A climax at some chapter, with its intensity.
pub struct ClimaxPoint {
    pub chapter: usize,
    pub climax_type: String,
    pub intensity: u8,
    pub description: String,
}

/// A reader-gratification beat at some chapter.
pub struct PowerMoment {
    pub chapter: usize,
    pub moment_type: String,
    pub description: String,
    pub frequency: String,
}

/// One character and how it develops.
pub struct CharacterAnalysis {
    pub name: String,
    pub role: String,
    pub archetype: String,
    pub growth: String,
    pub main_moments: Vec<String>,
    pub relationships: Vec<String>,
}

/// A directed relationship between two characters.
pub struct CharacterRelationship {
    pub from: String,
    pub to: String,
    pub relation_type: String,
    pub description: String,
}

/// One element of the book's world.
pub struct WorldSetting {
    pub name: String,
    pub category: String,
    pub importance: String,
    pub description: String,
}

/// One power system and its progression.
pub struct PowerSystem {
    pub name: String,
    pub levels: Vec<String>,
    pub cultivation_method: String,
    pub resources: Vec<String>,
}

/// One writing technique worth learning.
pub struct WritingTechnique {
    pub category: String,
    pub technique: String,
    pub example: String,
    pub application: String,
}

/// Which analyses to run on an imported book.
pub struct BookAnalysisConfig {
    pub target_words_per_chapter: usize,
    pub analyze_rhythm: bool,
    pub analyze_climax: bool,
    pub analyze_power_moments: bool,
    pub extract_characters: bool,
    pub extract_world: bool,
    pub extract_techniques: bool,
}

impl Default for BookAnalysisConfig {
    /// Everything switched on, three thousand words a chapter.
    fn default() -> (r: Self)
        ensures
            r.target_words_per_chapter == 3000,
            r.analyze_rhythm && r.analyze_climax && r.analyze_power_moments,
            r.extract_characters && r.extract_world && r.extract_techniques,
    {
        BookAnalysisConfig {
            target_words_per_chapter: 3000,
            analyze_rhythm: true,
            analyze_climax: true,
            analyze_power_moments: true,
            extract_characters: true,
            extract_world: true,
            extract_techniques: true,
        }
    }
}

impl BookAnalysisResult {
    /// An empty analysis of the given title: unknown source, pending
    /// structure, everything else empty.
    pub fn new(title: &str) -> (r: Self)
        ensures
            r.title@ == title@,
            r.author is None,
            r.source@ == "unknown"@,
            r.structure.structure_type@ == "pending"@,
            r.structure.acts@.len() == 0,
            r.structure.pacing@ == "pending"@,
            r.structure.audience@ == "pending"@,
            r.plot_arcs@.len() == 0,
            r.rhythm.average_chapter_length == 0,
            r.rhythm.conflict_density@ == "pending"@,
            r.rhythm.turning_points@.len() == 0,
            r.rhythm.chapter_hooks@.len() == 0,
            r.climax_points@.len() == 0,
            r.power_moments@.len() == 0,
            r.characters@.len() == 0,
            r.character_relationships@.len() == 0,
            r.world_settings@.len() == 0,
            r.power_system@.len() == 0,
            r.techniques@.len() == 0,
            r.summary@.len() == 0,
            r.learnable_points@.len() == 0,
    {
        BookAnalysisResult {
            title: String::from_str(title),
            author: None,
            source: String::from_str("unknown"),
            structure: BookStructure {
                structure_type: String::from_str("pending"),
                acts: Vec::new(),
                pacing: String::from_str("pending"),
                audience: String::from_str("pending"),
            },
            plot_arcs: Vec::new(),
            rhythm: RhythmAnalysis {
                average_chapter_length: 0,
                conflict_density: String::from_str("pending"),
                turning_points: Vec::new(),
                chapter_hooks: Vec::new(),
            },
            climax_points: Vec::new(),
            power_moments: Vec::new(),
            characters: Vec::new(),
            character_relationships: Vec::new(),
            world_settings: Vec::new(),
            power_system: Vec::new(),
            techniques: Vec::new(),
            summary: String::new(),
            learnable_points: Vec::new(),
        }
    }
}

/// A lighter analysis of an imported book.
pub struct BookAnalysis {
    pub title: String,
    pub author: Option<String>,
    pub total_words: usize,
    pub chapters: Vec<ChapterInfo>,
    pub outline: BookOutline,
    pub themes: Vec<String>,
    pub style: String,
}

/// Coarse classification of a book.
pub struct BookOutline {
    pub structure: String,
    pub genre: String,
    pub target_audience: String,
}

impl BookAnalysis {
    /// An empty analysis of the given title, with the classification still
    /// unknown.
    pub fn new(title: &str) -> (r: Self)
        ensures
            r.title@ == title@,
            r.author is None,
            r.total_words == 0,
            r.chapters@.len() == 0,
            r.outline.structure@ == "未知"@,
            r.outline.genre@ == "未知"@,
            r.outline.target_audience@ == "通用"@,
            r.themes@.len() == 0,
            r.style@.len() == 0,
    {
        BookAnalysis {
            title: String::from_str(title),
            author: None,
            total_words: 0,
            chapters: Vec::new(),
            outline: BookOutline {
                structure: String::from_str("未知"),
                genre: String::from_str("未知"),
                target_audience: String::from_str("通用"),
            },
            themes: Vec::new(),
            style: String::new(),
        }
    }
}

/// One recognized chapter of an imported book.
pub struct ChapterInfo {
    pub id: usize,
    pub title: String,
    pub start_line: usize,
    pub end_line: usize,
    pub word_count: usize,
    pub summary: String,
    pub key_events: Vec<String>,
    pub characters_appearing: Vec<String>,
}

/// How to split an imported book into chapters.
pub struct BookSplitConfig {
    pub target_chapter_words: usize,
    pub preserve_chapter_titles: bool,
    pub min_chapter_words: usize,
}

impl Default for BookSplitConfig {
    /// Three-thousand-word chapters, titles kept, five hundred words at
    /// least.
    fn default() -> (r: Self)
        ensures
            r.target_chapter_words == 3000,
            r.preserve_chapter_titles,
            r.min_chapter_words == 500,
    {
        BookSplitConfig {
            target_chapter_words: 3000,
            preserve_chapter_titles: true,
            min_chapter_words: 500,
        }
    }
}

/// The outcome of splitting a book.
pub struct BookSplitResult {
    pub title: String,
    pub original_title: String,
    pub chapters: Vec<SplitChapter>,
    pub total_words: usize,
    pub metadata: Vec<(String, String)>,
}

/// One chapter produced by a split.
pub struct SplitChapter {
    pub id: usize,
    pub title: String,
    pub content: String,
    pub word_count: usize,
    pub start_index: usize,
    pub end_index: usize,
    pub summary: Option<String>,
}

/// One extracted character.
pub struct CharacterInfo {
    pub name: String,
    pub role: String,
    pub description: String,
}

/// One extracted world-building element.
pub struct SettingInfo {
    pub name: String,
    pub category: String,
    pub description: String,
}


/// Whether the text shows signs of appearance-description phrasing.
pub open spec fn has_appearance_cues(s: Seq<char>) -> bool {
    contains_seq(s, "只见"@) || contains_seq(s, "那道"@) || contains_seq(s, "此人"@)
}

/// Whether the text shows signs of a cultivation power system.
pub open spec fn has_cultivation_cues(s: Seq<char>) -> bool {
    contains_seq(s, "修为"@) || contains_seq(s, "灵气"@) || contains_seq(s, "功法"@)
}

/// Whether the text shows signs of antagonist-mockery dialogue.
pub open spec fn has_mockery_cues(s: Seq<char>) -> bool {
    contains_seq(s, "冷笑"@) || contains_seq(s, "不屑"@) || contains_seq(s, "讥讽"@)
}

/// Whether the text shows signs of a system-stream device.
pub open spec fn has_system_cues(s: Seq<char>) -> bool {
    contains_seq(s, "系统"@) || contains_seq(s, "叮"@) || contains_seq(s, "恭喜"@)
}

/// Builds a writing technique from its parts.
fn make_technique(category: &str, name: &str, example: &str, application: &str) -> (r:
    WritingTechnique)
    ensures
        r.category@ == category@,
        r.technique@ == name@,
        r.example@ == example@,
        r.application@ == application@,
{
    WritingTechnique {
        category: String::from_str(category),
        technique: String::from_str(name),
        example: String::from_str(example),
        application: String::from_str(application),
    }
}

/// Recognizes common writing techniques from their textual cues, in a
/// fixed order; a text showing none gets the one generic technique.
pub fn book_extract_techniques(content: &str) -> (r: Vec<WritingTechnique>)
    ensures
        r@.len() == (if !has_appearance_cues(content@) && !has_cultivation_cues(content@)
            && !has_mockery_cues(content@) && !has_system_cues(content@) {
            1int
        } else {
            (if has_appearance_cues(content@) { 1int } else { 0 }) + (if has_cultivation_cues(
                content@,
            ) { 1int } else { 0 }) + (if has_mockery_cues(content@) { 1int } else { 0 }) + (
            if has_system_cues(content@) { 1int } else { 0 })
        }),
        has_appearance_cues(content@) ==> r@[0].category@ == "description"@,
        (!has_appearance_cues(content@) && !has_cultivation_cues(content@) && !has_mockery_cues(
            content@,
        ) && !has_system_cues(content@)) ==> r@[0].category@ == "narrative"@,
{
    let mut techniques: Vec<WritingTechnique> = Vec::new();
    if str_contains(content, "只见") || str_contains(content, "那道") || str_contains(
        content,
        "此人",
    ) {
        techniques.push(
            make_technique(
                "description",
                "appearance description",
                "just see this person...",
                "character introduction",
            ),
        );
    }
    if str_contains(content, "修为") || str_contains(content, "灵气") || str_contains(
        content,
        "功法",
    ) {
        techniques.push(
            make_technique(
                "setting",
                "cultivation system",
                "spiritual energy - technique - cultivation",
                "fantasy power system",
            ),
        );
    }
    if str_contains(content, "冷笑") || str_contains(content, "不屑") || str_contains(
        content,
        "讥讽",
    ) {
        techniques.push(
            make_technique("dialogue", "antagonist mockery", "cold laugh...", "create conflict"),
        );
    }
    if str_contains(content, "系统") || str_contains(content, "叮") || str_contains(
        content,
        "恭喜",
    ) {
        techniques.push(
            make_technique(
                "golden_finger",
                "system stream",
                "system issues task",
                "protagonist gets strong quickly",
            ),
        );
    }
    if techniques.len() == 0 {
        techniques.push(
            make_technique(
                "narrative",
                "progressive narrative",
                "clear main plot",
                "keep story moving",
            ),
        );
    }
    techniques
}

}
