//! Story-outline data model: archetypes, plot-node templates, story
//! templates, the story specification, and the character-arc map.
use vstd::prelude::*;
use crate::text::str_eq;

verus! {

/// Narrative voice, tense and tone.
pub struct SpecKitStyleConfig {
    pub pov: String,
    pub tense: String,
    pub tone: String,
}

/// The story's theme statement and keywords.
pub struct SpecKitThemeConfig {
    pub statement: String,
    pub keywords: Vec<String>,
}

/// The built-in character archetypes.
pub struct ArchetypeDb {
    pub spec_kit_version: String,
    pub archetypes: Vec<Archetype>,
}

/// One character archetype.
pub struct Archetype {
    pub id: String,
    pub name: String,
    pub role: String,
    pub core_want: String,
    pub core_need: String,
    pub shadow: String,
}

/// The built-in plot-node templates.
pub struct PlotNodeTemplateDb {
    pub spec_kit_version: String,
    pub nodes: Vec<PlotNodeTemplate>,
}

/// One plot node a story should hit.
pub struct PlotNodeTemplate {
    pub id: String,
    pub name: String,
    pub act: String,
    pub purpose: String,
    pub required_fields: Vec<String>,
}

/// A complete story template: type, theme, and beats.
pub struct StoryTemplate {
    pub spec_kit_version: String,
    pub template_id: String,
    pub display_name: String,
    pub story_type: String,
    pub default_theme_statement: String,
    pub beats: Vec<TemplateBeat>,
}

/// One beat of a story template.
pub struct TemplateBeat {
    pub beat_id: String,
    pub act: String,
    pub summary: String,
}

/// The full specification of one story.
pub struct StorySpec {
    pub spec_kit_version: String,
    pub story: StorySpecStory,
    pub structure: StorySpecStructure,
    pub characters: Vec<StorySpecCharacter>,
    pub chapters: Vec<StorySpecChapter>,
}

/// The story-level facts of a specification.
pub struct StorySpecStory {
    pub title: String,
    pub logline: String,
    pub story_type: String,
    pub target_words: u32,
    pub theme_statement: String,
    pub theme_keywords: Vec<String>,
    pub style: SpecKitStyleConfig,
}

/// The act structure of a specification.
pub struct StorySpecStructure {
    pub acts: Vec<StorySpecAct>,
}

/// One act and its beats.
pub struct StorySpecAct {
    pub id: String,
    pub name: String,
    pub beats: Vec<StorySpecBeat>,
}

/// One beat and the chapter range it should land in.
pub struct StorySpecBeat {
    pub id: String,
    pub name: String,
    pub target_chapter_range: [u32; 2],
    pub purpose: String,
}

/// One character of a specification.
pub struct StorySpecCharacter {
    pub id: String,
    pub name: String,
    pub archetype_id: String,
    pub want: String,
    pub need: String,
    pub lie: String,
    pub arc_steps: Vec<String>,
}

/// One chapter of a specification.
pub struct StorySpecChapter {
    pub id: String,
    pub title: String,
    pub act: String,
    pub target_words: u32,
    pub beat_id: String,
    pub scenes: Vec<StorySpecScene>,
}

/// One scene: goal, conflict, stakes, turn.
pub struct StorySpecScene {
    pub id: String,
    pub goal: String,
    pub conflict: String,
    pub stakes: String,
    pub turn: String,
    pub pov: String,
    pub location: String,
    pub characters: Vec<String>,
}

/// One problem a validation found.
pub struct ValidationIssue {
    pub severity: String,
    pub code: String,
    pub message: String,
    pub path: String,
}

/// Everything a validation found.
pub struct ValidationReport {
    pub issues: Vec<ValidationIssue>,
}

/// The arc map of every character.
pub struct ArcMap {
    pub spec_kit_version: String,
    pub character_maps: Vec<ArcCharacterMap>,
}

/// Which arc step of one character each story beat lands on.
pub struct ArcCharacterMap {
    pub character_id: String,
    pub character_name: String,
    pub archetype_id: String,
    pub beat_to_arc_step_index: Vec<(String, usize)>,
}

/// Builds a template beat from its parts.
fn template_beat(beat_id: &str, act: &str, summary: &str) -> (r: TemplateBeat)
    ensures
        r.beat_id@ == beat_id@,
        r.act@ == act@,
        r.summary@ == summary@,
{
    TemplateBeat {
        beat_id: String::from_str(beat_id),
        act: String::from_str(act),
        summary: String::from_str(summary),
    }
}

/// The three built-in story templates: coming of age, revenge, romance.
/// Each carries the seven canonical beats in order.
pub fn default_story_templates() -> (r: Vec<StoryTemplate>)
    ensures
        r@.len() == 3,
        r@[0].template_id@ == "coming_of_age"@,
        r@[1].template_id@ == "revenge"@,
        r@[2].template_id@ == "romance"@,
        forall|k: int| 0 <= k < 3 ==> (#[trigger] r@[k]).beats@.len() == 7
            && r@[k].spec_kit_version@ == "1.0.0"@ && r@[k].story_type@ == r@[k].template_id@,
        forall|k: int, j: int| 0 <= k < 3 && 0 <= j < 7 ==> (#[trigger] r@[k].beats@[j]).beat_id@
            == canonical_beat_id(j),
{
    let mut out: Vec<StoryTemplate> = Vec::new();
    let coming = StoryTemplate {
        spec_kit_version: String::from_str("1.0.0"),
        template_id: String::from_str("coming_of_age"),
        display_name: String::from_str("成长"),
        story_type: String::from_str("coming_of_age"),
        default_theme_statement: String::from_str("成长往往伴随代价，但选择塑造自我。"),
        beats: {
            let mut b: Vec<TemplateBeat> = Vec::new();
            b.push(template_beat("hook", "act1", "展示主角当下困境与缺口。"));
            b.push(template_beat("inciting_incident", "act1", "外部事件迫使主角离开舒适区。"));
            b.push(template_beat("turning_point_1", "act1", "主角做出承诺式决定，进入新世界。"));
            b.push(template_beat("midpoint", "act2", "真相揭示，主角的策略与自我认知改变。"));
            b.push(template_beat("turning_point_2", "act2", "重大损失，迫使主角直面内在谎言。"));
            b.push(template_beat("climax", "act3", "终极选择，完成成长并解决外部冲突。"));
            b.push(template_beat("resolution", "act3", "新平衡确立，主题回声收束。"));
            b
        },
    };
    out.push(coming);
    let revenge = StoryTemplate {
        spec_kit_version: String::from_str("1.0.0"),
        template_id: String::from_str("revenge"),
        display_name: String::from_str("复仇"),
        story_type: String::from_str("revenge"),
        default_theme_statement: String::from_str("复仇会吞噬人，也会照亮人。"),
        beats: {
            let mut b: Vec<TemplateBeat> = Vec::new();
            b.push(template_beat("hook", "act1", "展示伤害与不公的余波。"));
            b.push(template_beat("inciting_incident", "act1", "复仇目标出现或线索浮现。"));
            b.push(template_beat("turning_point_1", "act1", "主角越界，选择复仇路线。"));
            b.push(template_beat("midpoint", "act2", "主角接近目标，同时暴露更深阴谋。"));
            b.push(template_beat("turning_point_2", "act2", "代价失控，主角失去重要之物。"));
            b.push(template_beat("climax", "act3", "终局对决，复仇与救赎二选一。"));
            b.push(template_beat("resolution", "act3", "后果落地，主角付出或放下。"));
            b
        },
    };
    out.push(revenge);
    let romance = StoryTemplate {
        spec_kit_version: String::from_str("1.0.0"),
        template_id: String::from_str("romance"),
        display_name: String::from_str("爱情"),
        story_type: String::from_str("romance"),
        default_theme_statement: String::from_str("亲密需要勇气与边界。"),
        beats: {
            let mut b: Vec<TemplateBeat> = Vec::new();
            b.push(template_beat("hook", "act1", "主角的情感缺口与关系困境。"));
            b.push(template_beat("inciting_incident", "act1", "邂逅与碰撞，建立吸引与障碍。"));
            b.push(template_beat("turning_point_1", "act1", "两人被迫绑定或做出情感承诺。"));
            b.push(template_beat("midpoint", "act2", "关系升温与真相揭示并行。"));
            b.push(template_beat("turning_point_2", "act2", "误解/背叛/代价，关系濒临破裂。"));
            b.push(template_beat("climax", "act3", "终极选择：坦白、牺牲或共同成长。"));
            b.push(template_beat("resolution", "act3", "关系新平衡与主题回声。"));
            b
        },
    };
    out.push(romance);
    out
}

/// The identifier of the canonical story beat at position `j`.
pub open spec fn canonical_beat_id(j: int) -> Seq<char> {
    if j == 0 { "hook"@ } else if j == 1 { "inciting_incident"@ } else if j == 2 {
        "turning_point_1"@
    } else if j == 3 { "midpoint"@ } else if j == 4 { "turning_point_2"@ } else if j == 5 {
        "climax"@
    } else { "resolution"@ }
}

/// The display name of a story beat; an unknown identifier names itself.
pub open spec fn beat_name_spec(beat_id: Seq<char>) -> Seq<char> {
    if beat_id == "hook"@ { "开场钩子"@ } else if beat_id == "inciting_incident"@ { "激励事件"@ }
    else if beat_id == "turning_point_1"@ { "第一转折点"@ } else if beat_id == "midpoint"@ {
        "中点"@
    } else if beat_id == "turning_point_2"@ { "第二转折点"@ } else if beat_id == "climax"@ {
        "高潮"@
    } else if beat_id == "resolution"@ { "结局/尾声"@ } else { beat_id }
}

/// The display name of a story beat.
pub fn beat_name(beat_id: &str) -> (r: String)
    ensures
        r@ == beat_name_spec(beat_id@),
{
    if str_eq(beat_id, "hook") {
        String::from_str("开场钩子")
    } else if str_eq(beat_id, "inciting_incident") {
        String::from_str("激励事件")
    } else if str_eq(beat_id, "turning_point_1") {
        String::from_str("第一转折点")
    } else if str_eq(beat_id, "midpoint") {
        String::from_str("中点")
    } else if str_eq(beat_id, "turning_point_2") {
        String::from_str("第二转折点")
    } else if str_eq(beat_id, "climax") {
        String::from_str("高潮")
    } else if str_eq(beat_id, "resolution") {
        String::from_str("结局/尾声")
    } else {
        String::from_str(beat_id)
    }
}

/// How many default arc steps an archetype gets.
pub open spec fn default_arc_len(archetype_id: Seq<char>) -> int {
    if archetype_id == "hero"@ { 7 } else if archetype_id == "antagonist"@ { 5 }
    else if archetype_id == "mentor"@ { 3 } else { 3 }
}

/// The default arc step of an archetype at position `j`.
pub open spec fn arc_step_spec(archetype_id: Seq<char>, j: int) -> Seq<char> {
    if archetype_id == "hero"@ {
        if j == 0 { "旧世界：被谎言束缚"@ } else if j == 1 { "被迫行动：目标明确但方法粗糙"@ }
        else if j == 2 { "承诺：踏入新局面"@ } else if j == 3 { "翻转：认知改变，代价显现"@ }
        else if j == 4 { "低谷：失去与自责"@ } else if j == 5 { "选择：放下谎言，承担责任"@ }
        else { "新平衡：以新自我生活"@ }
    } else if archetype_id == "antagonist"@ {
        if j == 0 { "现状：以目标/秩序为正当性"@ } else if j == 1 { "加压：升级手段"@ }
        else if j == 2 { "反击：占据优势或制造误导"@ } else if j == 3 { "失控：代价回噬"@ }
        else { "终局：败北或付出代价"@ }
    } else if archetype_id == "mentor"@ {
        if j == 0 { "引导：提供方向与工具"@ } else if j == 1 { "试炼：逼主角独立选择"@ }
        else { "放手：相信主角能完成"@ }
    } else {
        if j == 0 { "起点"@ } else if j == 1 { "变化"@ } else { "结局"@ }
    }
}

/// The default character-arc steps for an archetype: seven for the hero,
/// five for the antagonist, three for the mentor, a generic three for
/// anything else — each step exactly [`arc_step_spec`].
pub fn default_arc_steps_for_archetype(archetype_id: &str) -> (r: Vec<String>)
    ensures
        r@.len() == default_arc_len(archetype_id@),
        forall|j: int| 0 <= j < r@.len() ==> (#[trigger] r@[j])@ == arc_step_spec(
            archetype_id@,
            j,
        ),
{
    proof {
        reveal_strlit("hero");
        reveal_strlit("antagonist");
        reveal_strlit("mentor");
        assert("hero"@.len() == 4);
        assert("antagonist"@.len() == 10);
        assert("mentor"@.len() == 6);
    }
    let mut out: Vec<String> = Vec::new();
    if str_eq(archetype_id, "hero") {
        out.push(String::from_str("旧世界：被谎言束缚"));
        out.push(String::from_str("被迫行动：目标明确但方法粗糙"));
        out.push(String::from_str("承诺：踏入新局面"));
        out.push(String::from_str("翻转：认知改变，代价显现"));
        out.push(String::from_str("低谷：失去与自责"));
        out.push(String::from_str("选择：放下谎言，承担责任"));
        out.push(String::from_str("新平衡：以新自我生活"));
    } else if str_eq(archetype_id, "antagonist") {
        out.push(String::from_str("现状：以目标/秩序为正当性"));
        out.push(String::from_str("加压：升级手段"));
        out.push(String::from_str("反击：占据优势或制造误导"));
        out.push(String::from_str("失控：代价回噬"));
        out.push(String::from_str("终局：败北或付出代价"));
    } else if str_eq(archetype_id, "mentor") {
        out.push(String::from_str("引导：提供方向与工具"));
        out.push(String::from_str("试炼：逼主角独立选择"));
        out.push(String::from_str("放手：相信主角能完成"));
    } else {
        out.push(String::from_str("起点"));
        out.push(String::from_str("变化"));
        out.push(String::from_str("结局"));
    }
    proof {
        assert(forall|j: int| 0 <= j < out@.len() ==> (#[trigger] out@[j])@ == arc_step_spec(
            archetype_id@,
            j,
        ));
    }
    out
}

/// The position of the first chapter whose beat is `beat`, if any.
pub open spec fn first_beat_pos(chapters: Seq<StorySpecChapter>, beat: Seq<char>) -> Option<int>
    decreases chapters.len(),
{
    if chapters.len() == 0 {
        Option::None
    } else if chapters[0].beat_id@ == beat {
        Option::Some(0)
    } else {
        match first_beat_pos(chapters.skip(1), beat) {
            Option::Some(i) => Option::Some(i + 1),
            Option::None => Option::None,
        }
    }
}

/// Whether some chapter carries the beat.
fn has_beat(chapters: &Vec<StorySpecChapter>, beat: &str) -> (r: bool)
    ensures
        r == (first_beat_pos(chapters@, beat@) is Some),
    decreases chapters@.len(),
{
    let mut i: usize = 0;
    proof {
        assert(chapters@.skip(0) =~= chapters@);
    }
    loop
        invariant
            i <= chapters@.len(),
            first_beat_pos(chapters@, beat@) is Some == (first_beat_pos(
                chapters@.skip(i as int),
                beat@,
            ) is Some),
        decreases chapters@.len() - i,
    {
        if i >= chapters.len() {
            return false;
        }
        proof {
            assert(chapters@.skip(i as int)[0] == chapters@[i as int]);
            assert(chapters@.skip(i as int).skip(1) =~= chapters@.skip(i + 1));
        }
        if str_eq(chapters[i].beat_id.as_str(), beat) {
            return true;
        }
        i = i + 1;
    }
}

/// Some chapter carries the beat.
pub open spec fn beat_present(chapters: Seq<StorySpecChapter>, beat: Seq<char>) -> bool {
    first_beat_pos(chapters, beat) is Some
}

/// One of the seven canonical beat identifiers.
pub open spec fn is_canonical_beat(beat: Seq<char>) -> bool {
    exists|j: int| 0 <= j < 7 && beat == canonical_beat_id(j)
}

/// The beat-to-arc-step schedule of an archetype whose last arc index is
/// `last`: the hero walks all seven canonical beats, the antagonist five
/// from the inciting incident, anyone else three key turns; step positions
/// are capped at the arc's last index.
pub open spec fn arc_schedule(archetype_id: Seq<char>, last: int) -> Seq<(Seq<char>, int)> {
    if archetype_id == "hero"@ {
        seq![
            ("hook"@, 0int),
            ("inciting_incident"@, vstd::math::min(1, last)),
            ("turning_point_1"@, vstd::math::min(2, last)),
            ("midpoint"@, vstd::math::min(3, last)),
            ("turning_point_2"@, vstd::math::min(4, last)),
            ("climax"@, vstd::math::min(5, last)),
            ("resolution"@, last),
        ]
    } else if archetype_id == "antagonist"@ {
        seq![
            ("inciting_incident"@, 0int),
            ("turning_point_1"@, vstd::math::min(1, last)),
            ("midpoint"@, vstd::math::min(2, last)),
            ("turning_point_2"@, vstd::math::min(3, last)),
            ("climax"@, last),
        ]
    } else {
        seq![
            ("turning_point_1"@, 0int),
            ("midpoint"@, vstd::math::min(1, last)),
            ("climax"@, last),
        ]
    }
}

/// The schedule entries from position `j` on whose beat some chapter
/// carries, appended to `acc` in order.
pub open spec fn sched_from(
    pairs: Seq<(Seq<char>, int)>,
    chapters: Seq<StorySpecChapter>,
    j: int,
    acc: Seq<(Seq<char>, int)>,
) -> Seq<(Seq<char>, int)>
    decreases pairs.len() - j when 0 <= j <= pairs.len()
{
    if j >= pairs.len() {
        acc
    } else if beat_present(chapters, pairs[j].0) {
        sched_from(pairs, chapters, j + 1, acc.push(pairs[j]))
    } else {
        sched_from(pairs, chapters, j + 1, acc)
    }
}

/// The schedule entries whose beat some chapter carries, in order.
pub open spec fn scheduled_pairs(
    pairs: Seq<(Seq<char>, int)>,
    chapters: Seq<StorySpecChapter>,
) -> Seq<(Seq<char>, int)> {
    sched_from(pairs, chapters, 0, Seq::empty())
}

/// The abstract value of a built beat-to-step table.
pub open spec fn pair_views(v: Seq<(String, usize)>) -> Seq<(Seq<char>, int)>
    decreases v.len(),
{
    if v.len() == 0 {
        Seq::empty()
    } else {
        seq![(v[0].0@, v[0].1 as int)] + pair_views(v.skip(1))
    }
}

/// The views line up with the table, entry for entry.
proof fn lemma_pair_views_index(v: Seq<(String, usize)>)
    ensures
        pair_views(v).len() == v.len(),
        forall|j: int| 0 <= j < v.len() ==> #[trigger] pair_views(v)[j] == (v[j].0@, v[j].1 as int),
    decreases v.len(),
{
    if v.len() > 0 {
        lemma_pair_views_index(v.skip(1));
        assert(forall|j: int| 1 <= j < v.len() ==> pair_views(v)[j] == pair_views(v.skip(1))[
            j - 1] && v[j] == v.skip(1)[j - 1]);
    }
}

/// One more table entry extends the views by its view.
proof fn lemma_pair_views_push(v: Seq<(String, usize)>, p: (String, usize))
    ensures
        pair_views(v.push(p)) == pair_views(v).push((p.0@, p.1 as int)),
    decreases v.len(),
{
    let whole = v.push(p);
    if v.len() == 0 {
        assert(whole.skip(1) =~= Seq::<(String, usize)>::empty());
        assert(whole[0] == p);
        assert(pair_views(Seq::<(String, usize)>::empty()) =~= Seq::<(Seq<char>, int)>::empty());
        assert(pair_views(whole) =~= pair_views(v).push((p.0@, p.1 as int)));
    } else {
        assert(whole.skip(1) =~= v.skip(1).push(p));
        assert(whole[0] == v[0]);
        lemma_pair_views_push(v.skip(1), p);
        assert(pair_views(whole) =~= pair_views(v).push((p.0@, p.1 as int)));
    }
}

/// What one character's beat-to-step table holds: the present-beat entries
/// of its archetype's schedule, nothing for a character without arc steps.
pub open spec fn char_schedule(ch: StorySpecCharacter, chapters: Seq<StorySpecChapter>) -> Seq<
    (Seq<char>, int),
> {
    if ch.arc_steps@.len() == 0 {
        Seq::empty()
    } else {
        scheduled_pairs(arc_schedule(ch.archetype_id@, ch.arc_steps@.len() - 1), chapters)
    }
}

/// Kept schedule entries stay within the given bounds and name present
/// beats.
proof fn lemma_sched_from_bounds(
    pairs: Seq<(Seq<char>, int)>,
    chapters: Seq<StorySpecChapter>,
    j: int,
    acc: Seq<(Seq<char>, int)>,
    lo: int,
    hi: int,
)
    requires
        0 <= j <= pairs.len(),
        forall|t: int| 0 <= t < acc.len() ==> lo <= (#[trigger] acc[t]).1 <= hi
            && beat_present(chapters, acc[t].0) && is_canonical_beat(acc[t].0),
        forall|t: int| j <= t < pairs.len() ==> lo <= (#[trigger] pairs[t]).1 <= hi
            && is_canonical_beat(pairs[t].0),
    ensures
        ({
            let r = sched_from(pairs, chapters, j, acc);
            forall|t: int| 0 <= t < r.len() ==> lo <= (#[trigger] r[t]).1 <= hi
                && beat_present(chapters, r[t].0) && is_canonical_beat(r[t].0)
        }),
    decreases pairs.len() - j,
{
    if j < pairs.len() {
        if beat_present(chapters, pairs[j].0) {
            let acc2 = acc.push(pairs[j]);
            assert(forall|t: int| 0 <= t < acc2.len() ==> lo <= (#[trigger] acc2[t]).1 <= hi
                && beat_present(chapters, acc2[t].0) && is_canonical_beat(acc2[t].0)) by {
                assert(forall|t: int| 0 <= t < acc.len() ==> acc2[t] == acc[t]);
                assert(acc2[acc.len() as int] == pairs[j]);
            }
            assert(sched_from(pairs, chapters, j, acc) == sched_from(
                pairs,
                chapters,
                j + 1,
                acc2,
            ));
            lemma_sched_from_bounds(pairs, chapters, j + 1, acc2, lo, hi);
        } else {
            assert(sched_from(pairs, chapters, j, acc) == sched_from(
                pairs,
                chapters,
                j + 1,
                acc,
            ));
            lemma_sched_from_bounds(pairs, chapters, j + 1, acc, lo, hi);
        }
    }
}

/// Every entry of a character's schedule indexes into its arc and names a
/// beat some chapter carries.
proof fn lemma_char_schedule_bounds(ch: StorySpecCharacter, chapters: Seq<StorySpecChapter>)
    ensures
        ({
            let r = char_schedule(ch, chapters);
            forall|t: int| 0 <= t < r.len() ==> 0 <= (#[trigger] r[t]).1
                < ch.arc_steps@.len() && beat_present(chapters, r[t].0) && is_canonical_beat(
                r[t].0,
            )
        }),
{
    if ch.arc_steps@.len() > 0 {
        let last = ch.arc_steps@.len() - 1;
        let pairs = arc_schedule(ch.archetype_id@, last);
        assert forall|t: int| 0 <= t < pairs.len() implies 0 <= (#[trigger] pairs[t]).1 <= last
            && is_canonical_beat(pairs[t].0) by {
            assert(pairs[t].0 == canonical_beat_id(0) || pairs[t].0 == canonical_beat_id(1)
                || pairs[t].0 == canonical_beat_id(2) || pairs[t].0 == canonical_beat_id(3)
                || pairs[t].0 == canonical_beat_id(4) || pairs[t].0 == canonical_beat_id(5)
                || pairs[t].0 == canonical_beat_id(6));
        }
        lemma_sched_from_bounds(pairs, chapters, 0, Seq::empty(), 0, last);
    }
}

/// Fills every character's empty arc with its archetype default, then maps
/// each canonical beat present in the chapters to an arc step per the
/// archetype's shape: the hero walks all seven beats, the antagonist five
/// from the inciting incident, anyone else three key turns.
pub fn generate_arc_map_and_fill_defaults(spec: &mut StorySpec) -> (r: ArcMap)
    ensures
        r.spec_kit_version@ == "1.0.0"@,
        r.character_maps@.len() == final(spec).characters@.len(),
        final(spec).characters@.len() == old(spec).characters@.len(),
        final(spec).chapters@ == old(spec).chapters@,
        final(spec).structure == old(spec).structure,
        final(spec).story == old(spec).story,
        forall|i: int| 0 <= i < final(spec).characters@.len()
            ==> (#[trigger] final(spec).characters@[i]).id@ == old(spec).characters@[i].id@
                && final(spec).characters@[i].name@ == old(spec).characters@[i].name@
                && final(spec).characters@[i].archetype_id@
                == old(spec).characters@[i].archetype_id@
                && final(spec).characters@[i].want == old(spec).characters@[i].want
                && final(spec).characters@[i].need == old(spec).characters@[i].need
                && final(spec).characters@[i].lie == old(spec).characters@[i].lie,
        forall|i: int| 0 <= i < final(spec).characters@.len() ==> ({
            let was = old(spec).characters@[i].arc_steps@;
            let now = (#[trigger] final(spec).characters@[i]).arc_steps@;
            let aid = old(spec).characters@[i].archetype_id@;
            if was.len() > 0 {
                now == was
            } else {
                now.len() == default_arc_len(aid) && forall|j: int|
                    0 <= j < now.len() ==> (#[trigger] now[j])@ == arc_step_spec(aid, j)
            }
        }),
        forall|i: int| 0 <= i < r.character_maps@.len()
            ==> (#[trigger] r.character_maps@[i]).character_id@
                == final(spec).characters@[i].id@
                && r.character_maps@[i].character_name@ == final(spec).characters@[i].name@
                && r.character_maps@[i].archetype_id@
                == final(spec).characters@[i].archetype_id@,
        forall|i: int| 0 <= i < r.character_maps@.len() ==> pair_views(
            (#[trigger] r.character_maps@[i]).beat_to_arc_step_index@,
        ) == char_schedule(final(spec).characters@[i], final(spec).chapters@),
        forall|i: int, j: int|
            0 <= i < r.character_maps@.len() && 0 <= j
                < r.character_maps@[i].beat_to_arc_step_index@.len() ==> 0 <= (
            #[trigger] r.character_maps@[i].beat_to_arc_step_index@[j]).1
                < final(spec).characters@[i].arc_steps@.len() && beat_present(
                final(spec).chapters@,
                r.character_maps@[i].beat_to_arc_step_index@[j].0@,
            ) && is_canonical_beat(r.character_maps@[i].beat_to_arc_step_index@[j].0@),
{
    let n = spec.characters.len();
    let mut idx: usize = 0;
    while idx < n
        invariant
            n == spec.characters@.len(),
            idx <= n,
            spec.characters@.len() == old(spec).characters@.len(),
            spec.chapters@ == old(spec).chapters@,
            spec.structure == old(spec).structure,
            spec.story == old(spec).story,
            forall|i: int| 0 <= i < n ==> (#[trigger] spec.characters@[i]).id@
                == old(spec).characters@[i].id@ && spec.characters@[i].name@
                == old(spec).characters@[i].name@ && spec.characters@[i].archetype_id@
                == old(spec).characters@[i].archetype_id@ && spec.characters@[i].want
                == old(spec).characters@[i].want && spec.characters@[i].need
                == old(spec).characters@[i].need && spec.characters@[i].lie
                == old(spec).characters@[i].lie,
            forall|i: int| idx <= i < n ==> #[trigger] spec.characters@[i]
                == old(spec).characters@[i],
            forall|i: int| 0 <= i < idx ==> ({
                let was = old(spec).characters@[i].arc_steps@;
                let now = (#[trigger] spec.characters@[i]).arc_steps@;
                let aid = old(spec).characters@[i].archetype_id@;
                if was.len() > 0 {
                    now == was
                } else {
                    now.len() == default_arc_len(aid) && forall|j: int|
                        0 <= j < now.len() ==> (#[trigger] now[j])@ == arc_step_spec(aid, j)
                }
            }),
        decreases n - idx,
    {
        if spec.characters[idx].arc_steps.len() == 0 {
            let steps = default_arc_steps_for_archetype(
                spec.characters[idx].archetype_id.as_str(),
            );
            let ghost before = spec.characters@;
            let old_ch = spec.characters.remove(idx);
            let new_ch = StorySpecCharacter { arc_steps: steps, ..old_ch };
            spec.characters.insert(idx, new_ch);
            proof {
                assert(forall|i: int| 0 <= i < n && i != idx ==> spec.characters@[i] == before[i]);
            }
        }
        idx = idx + 1;
    }
    let mut character_maps: Vec<ArcCharacterMap> = Vec::new();
    let mut c: usize = 0;
    while c < n
        invariant
            n == spec.characters@.len(),
            c <= n,
            character_maps@.len() == c,
            forall|i: int| 0 <= i < c ==> (#[trigger] character_maps@[i]).character_id@
                == spec.characters@[i].id@ && character_maps@[i].character_name@
                == spec.characters@[i].name@ && character_maps@[i].archetype_id@
                == spec.characters@[i].archetype_id@,
            forall|i: int| 0 <= i < c ==> pair_views(
                (#[trigger] character_maps@[i]).beat_to_arc_step_index@,
            ) == char_schedule(spec.characters@[i], spec.chapters@),
            forall|i: int, j: int|
                0 <= i < c && 0 <= j < character_maps@[i].beat_to_arc_step_index@.len() ==> 0 <= (
                #[trigger] character_maps@[i].beat_to_arc_step_index@[j]).1
                    < spec.characters@[i].arc_steps@.len() && beat_present(
                    spec.chapters@,
                    character_maps@[i].beat_to_arc_step_index@[j].0@,
                ) && is_canonical_beat(character_maps@[i].beat_to_arc_step_index@[j].0@),
        decreases n - c,
    {
        let ch = &spec.characters[c];
        let last = if ch.arc_steps.len() == 0 {
            0
        } else {
            ch.arc_steps.len() - 1
        };
        let mut map: Vec<(String, usize)> = Vec::new();
        proof {
            assert(pair_views(map@) =~= Seq::<(Seq<char>, int)>::empty());
        }
        if ch.arc_steps.len() > 0 {
            let ghost schedule = arc_schedule(ch.archetype_id@, last as int);
            if str_eq(ch.archetype_id.as_str(), "hero") {
                push_beat_step(&mut map, &spec.chapters, "hook", 0, last, Ghost(schedule), Ghost(0));
                push_beat_step(&mut map, &spec.chapters, "inciting_incident", 1, last, Ghost(schedule), Ghost(1));
                push_beat_step(&mut map, &spec.chapters, "turning_point_1", 2, last, Ghost(schedule), Ghost(2));
                push_beat_step(&mut map, &spec.chapters, "midpoint", 3, last, Ghost(schedule), Ghost(3));
                push_beat_step(&mut map, &spec.chapters, "turning_point_2", 4, last, Ghost(schedule), Ghost(4));
                push_beat_step(&mut map, &spec.chapters, "climax", 5, last, Ghost(schedule), Ghost(5));
                push_beat_step(&mut map, &spec.chapters, "resolution", last, last, Ghost(schedule), Ghost(6));
            } else if str_eq(ch.archetype_id.as_str(), "antagonist") {
                push_beat_step(&mut map, &spec.chapters, "inciting_incident", 0, last, Ghost(schedule), Ghost(0));
                push_beat_step(&mut map, &spec.chapters, "turning_point_1", 1, last, Ghost(schedule), Ghost(1));
                push_beat_step(&mut map, &spec.chapters, "midpoint", 2, last, Ghost(schedule), Ghost(2));
                push_beat_step(&mut map, &spec.chapters, "turning_point_2", 3, last, Ghost(schedule), Ghost(3));
                push_beat_step(&mut map, &spec.chapters, "climax", last, last, Ghost(schedule), Ghost(4));
            } else {
                push_beat_step(&mut map, &spec.chapters, "turning_point_1", 0, last, Ghost(schedule), Ghost(0));
                push_beat_step(&mut map, &spec.chapters, "midpoint", 1, last, Ghost(schedule), Ghost(1));
                push_beat_step(&mut map, &spec.chapters, "climax", last, last, Ghost(schedule), Ghost(2));
            }
            proof {
                assert(sched_from(schedule, spec.chapters@, schedule.len() as int, pair_views(
                    map@,
                )) == pair_views(map@));
                assert(pair_views(map@) == char_schedule(
                    spec.characters@[c as int],
                    spec.chapters@,
                ));
            }
        }
        let ghost mv = map@;
        proof {
            lemma_char_schedule_bounds(spec.characters@[c as int], spec.chapters@);
            lemma_pair_views_index(mv);
            if spec.characters@[c as int].arc_steps@.len() == 0 {
                assert(pair_views(mv) =~= char_schedule(
                    spec.characters@[c as int],
                    spec.chapters@,
                ));
            }
        }
        let entry = ArcCharacterMap {
            character_id: ch.id.clone(),
            character_name: ch.name.clone(),
            archetype_id: ch.archetype_id.clone(),
            beat_to_arc_step_index: map,
        };
        character_maps.push(entry);
        proof {
            assert(character_maps@[c as int].beat_to_arc_step_index@ == mv);
            let cs = char_schedule(spec.characters@[c as int], spec.chapters@);
            assert(pair_views(mv) == cs);
            assert(pair_views(mv).len() == mv.len());
            assert(cs.len() == mv.len());
            assert forall|j: int| 0 <= j < mv.len() implies 0 <= (#[trigger] mv[j]).1
                < spec.characters@[c as int].arc_steps@.len() && beat_present(
                spec.chapters@,
                mv[j].0@,
            ) && is_canonical_beat(mv[j].0@) by {
                assert(pair_views(mv)[j] == cs[j]);
                assert(pair_views(mv)[j] == (mv[j].0@, mv[j].1 as int));
                assert(0 <= cs[j].1 < spec.characters@[c as int].arc_steps@.len());
                assert(beat_present(spec.chapters@, cs[j].0));
                assert(is_canonical_beat(cs[j].0));
            }
        }
        c = c + 1;
    }
    ArcMap { spec_kit_version: String::from_str("1.0.0"), character_maps }
}

/// Records that `beat` lands on arc step `step` (capped at `last`) when
/// some chapter carries the beat: one step of folding the schedule into
/// the table.
#[allow(unused_variables)]
fn push_beat_step(
    map: &mut Vec<(String, usize)>,
    chapters: &Vec<StorySpecChapter>,
    beat: &str,
    step: usize,
    last: usize,
    Ghost(schedule): Ghost<Seq<(Seq<char>, int)>>,
    Ghost(k): Ghost<int>,
)
    requires
        0 <= k < schedule.len(),
        schedule[k].0 == beat@,
        schedule[k].1 == vstd::math::min(step as int, last as int),
    ensures
        sched_from(schedule, chapters@, k + 1, pair_views(final(map)@)) == sched_from(
            schedule,
            chapters@,
            k,
            pair_views(old(map)@),
        ),
{
    if has_beat(chapters, beat) {
        let idx = if step < last {
            step
        } else {
            last
        };
        let entry = (String::from_str(beat), idx);
        proof {
            lemma_pair_views_push(map@, entry);
        }
        map.push(entry);
    }
}


/// Builds an archetype from its parts.
fn archetype(id: &str, name: &str, role: &str, core_want: &str, core_need: &str, shadow: &str)
    -> (r: Archetype)
    ensures
        r.id@ == id@,
        r.name@ == name@,
        r.role@ == role@,
        r.core_want@ == core_want@,
        r.core_need@ == core_need@,
        r.shadow@ == shadow@,
{
    Archetype {
        id: String::from_str(id),
        name: String::from_str(name),
        role: String::from_str(role),
        core_want: String::from_str(core_want),
        core_need: String::from_str(core_need),
        shadow: String::from_str(shadow),
    }
}

impl Default for ArchetypeDb {
    /// The three built-in archetypes: hero, mentor, antagonist.
    fn default() -> (r: Self)
        ensures
            r.spec_kit_version@ == "1.0.0"@,
            r.archetypes@.len() == 3,
            r.archetypes@[0].id@ == "hero"@ && r.archetypes@[0].role@ == "protagonist"@,
            r.archetypes@[1].id@ == "mentor"@ && r.archetypes@[1].role@ == "support"@,
            r.archetypes@[2].id@ == "antagonist"@ && r.archetypes@[2].role@ == "antagonist"@,
    {
        let mut archetypes: Vec<Archetype> = Vec::new();
        archetypes.push(
            archetype(
                "hero",
                "英雄",
                "protagonist",
                "获得或达成一个明确目标",
                "完成内在成长并纠正自我谎言",
                "固执、自负或逃避责任",
            ),
        );
        archetypes.push(
            archetype(
                "mentor",
                "导师",
                "support",
                "把经验传承下去或弥补过去遗憾",
                "学会放手与信任主角",
                "操控欲或过度保护",
            ),
        );
        archetypes.push(
            archetype(
                "antagonist",
                "反派",
                "antagonist",
                "维护自身利益或秩序",
                "面对自身的恐惧或缺失",
                "极端化、以手段替代目的",
            ),
        );
        ArchetypeDb { spec_kit_version: String::from_str("1.0.0"), archetypes }
    }
}

/// Builds a plot-node template from its parts.
fn plot_node(id: &str, name: &str, act: &str, purpose: &str, fields: Vec<String>) -> (r:
    PlotNodeTemplate)
    ensures
        r.id@ == id@,
        r.name@ == name@,
        r.act@ == act@,
        r.purpose@ == purpose@,
        r.required_fields@ == fields@,
{
    PlotNodeTemplate {
        id: String::from_str(id),
        name: String::from_str(name),
        act: String::from_str(act),
        purpose: String::from_str(purpose),
        required_fields: fields,
    }
}

/// A vector of one owned string.
fn one_field(a: &str) -> (r: Vec<String>)
    ensures
        r@.len() == 1,
        r@[0]@ == a@,
{
    let mut v: Vec<String> = Vec::new();
    v.push(String::from_str(a));
    v
}

/// A vector of two owned strings.
fn two_fields(a: &str, b: &str) -> (r: Vec<String>)
    ensures
        r@.len() == 2,
        r@[0]@ == a@,
        r@[1]@ == b@,
{
    let mut v: Vec<String> = Vec::new();
    v.push(String::from_str(a));
    v.push(String::from_str(b));
    v
}

impl Default for PlotNodeTemplateDb {
    /// The seven canonical plot nodes, in story order.
    fn default() -> (r: Self)
        ensures
            r.spec_kit_version@ == "1.0.0"@,
            r.nodes@.len() == 7,
            forall|j: int| 0 <= j < 7 ==> (#[trigger] r.nodes@[j]).id@ == canonical_beat_id(j)
                && r.nodes@[j].name@ == beat_name_spec(canonical_beat_id(j)),
            forall|j: int| 0 <= j < 3 ==> (#[trigger] r.nodes@[j]).act@ == "act1"@,
            forall|j: int| 3 <= j < 5 ==> (#[trigger] r.nodes@[j]).act@ == "act2"@,
            forall|j: int| 5 <= j < 7 ==> (#[trigger] r.nodes@[j]).act@ == "act3"@,
    {
        proof {
            reveal_strlit("hook");
            reveal_strlit("inciting_incident");
            reveal_strlit("turning_point_1");
            reveal_strlit("midpoint");
            reveal_strlit("turning_point_2");
            reveal_strlit("climax");
            reveal_strlit("resolution");
            assert("hook"@.len() == 4);
            assert("inciting_incident"@.len() == 17);
            assert("turning_point_1"@.len() == 15);
            assert("midpoint"@.len() == 8);
            assert("turning_point_2"@.len() == 15);
            assert("climax"@.len() == 6);
            assert("resolution"@.len() == 10);
            assert("turning_point_1"@ != "turning_point_2"@) by {
                assert("turning_point_1"@[14] == '1');
                assert("turning_point_2"@[14] == '2');
            }
        }
        let mut nodes: Vec<PlotNodeTemplate> = Vec::new();
        nodes.push(
            plot_node(
                "hook",
                "开场钩子",
                "act1",
                "迅速制造好奇心与期待",
                two_fields("conflict", "question"),
            ),
        );
        nodes.push(
            plot_node(
                "inciting_incident",
                "激励事件",
                "act1",
                "打破旧平衡，迫使主角行动",
                two_fields("change", "stakes"),
            ),
        );
        nodes.push(
            plot_node(
                "turning_point_1",
                "第一转折点",
                "act1",
                "进入新局面，承诺主线冲突",
                two_fields("decision", "new_goal"),
            ),
        );
        nodes.push(
            plot_node(
                "midpoint",
                "中点",
                "act2",
                "信息翻转或价值翻转，使主角策略改变",
                two_fields("revelation", "shift"),
            ),
        );
        nodes.push(
            plot_node(
                "turning_point_2",
                "第二转折点",
                "act2",
                "代价提升到不可退让的程度",
                two_fields("loss", "point_of_no_return"),
            ),
        );
        nodes.push(
            plot_node(
                "climax",
                "高潮",
                "act3",
                "终极对决，解决核心冲突",
                two_fields("final_choice", "resolution"),
            ),
        );
        nodes.push(
            plot_node(
                "resolution",
                "结局/尾声",
                "act3",
                "兑现主题，交代后果与新平衡",
                one_field("new_normal"),
            ),
        );
        PlotNodeTemplateDb { spec_kit_version: String::from_str("1.0.0"), nodes }
    }
}

}
