//! The rules that decide which elements are left out of the rendered
//! text. Each rule is a predicate on an element of a document.

use vstd::prelude::*;
use crate::dom::{is_element, Document, DomNodeView, ElementData, ElementView};
use crate::pattern::{pattern_matches, Pattern};
use crate::query::{attr_of, class_id_of, first_descendant, has_exact_text, text_of};
use crate::text::{chars_of, contains, contains_str, eq_str, lowercase, find_in, to_lowercase};
use crate::text::{to_uppercase, trim, trimmed, uppercase};
use crate::words::{normalize, normalized};

verus! {

/// Finds the class names and identifiers of media players.
pub const PLAYER_PATTERN: &'static str = r"(?i)(player|audio|video|jwplayer|vjs|media|play)";

/// Finds the class names and identifiers of blocks that describe the site,
/// not the article.
pub const METADATA_PATTERN: &'static str =
    r"(?i)(publication|issue|magazine|context|related|footer|language|promo|share)";

/// Finds the code of a magazine issue.
pub const ISSUE_PATTERN: &'static str = r"(?i)\bwp\d{2}\b";

/// The patterns of the rules, made ready for matching.
pub struct RulePatterns {
    player: Pattern,
    metadata: Pattern,
    issue: Pattern,
}

impl RulePatterns {
    /// Each pattern is the one that its rule names.
    pub closed spec fn wf(&self) -> bool {
        &&& self.player@ == PLAYER_PATTERN@
        &&& self.metadata@ == METADATA_PATTERN@
        &&& self.issue@ == ISSUE_PATTERN@
    }

    /// Makes the patterns of the rules ready.
    pub fn new() -> (r: RulePatterns)
        ensures
            r.wf(),
    {
        RulePatterns {
            player: Pattern::compile(PLAYER_PATTERN),
            metadata: Pattern::compile(METADATA_PATTERN),
            issue: Pattern::compile(ISSUE_PATTERN),
        }
    }
}

/// The walk context: whether the branch lies inside an `article` or `main`
/// element, and the title of the article if it is known. The patterns of
/// the rules travel with it.
pub struct WalkCtx<'a> {
    pub in_article_or_main: bool,
    pub title: Option<&'a Vec<char>>,
    pub patterns: &'a RulePatterns,
}

impl<'a> WalkCtx<'a> {
    /// The patterns are those of the rules.
    pub open spec fn wf(&self) -> bool {
        self.patterns.wf()
    }
}

/// The mathematical value of a walk context.
pub ghost struct WalkCtxView {
    pub in_article_or_main: bool,
    pub title: Option<Seq<char>>,
}

impl<'a> View for WalkCtx<'a> {
    type V = WalkCtxView;

    open spec fn view(&self) -> WalkCtxView {
        WalkCtxView {
            in_article_or_main: self.in_article_or_main,
            title: match self.title {
                Some(t) => Some(t@),
                None => None,
            },
        }
    }
}

/// The context for the children of an element named `name`: inside an
/// article once `article` or `main` has been entered, and never outside
/// again.
pub open spec fn child_context(ctx: WalkCtxView, name: Seq<char>) -> WalkCtxView {
    WalkCtxView {
        in_article_or_main: ctx.in_article_or_main || name == "article"@ || name == "main"@,
        title: ctx.title,
    }
}

/// Tags whose content is never text of the article.
pub open spec fn is_hard_skip_tag(name: Seq<char>) -> bool {
    ||| name == "script"@
    ||| name == "style"@
    ||| name == "noscript"@
    ||| name == "svg"@
    ||| name == "form"@
    ||| name == "button"@
    ||| name == "audio"@
    ||| name == "video"@
    ||| name == "source"@
    ||| name == "track"@
}

/// Tags of page furniture.
pub open spec fn is_chrome_tag(name: Seq<char>) -> bool {
    name == "nav"@ || name == "footer"@ || name == "aside"@
}

/// Tags of block level, to which the metadata rule applies.
pub open spec fn is_block_tag(name: Seq<char>) -> bool {
    ||| name == "section"@
    ||| name == "div"@
    ||| name == "p"@
    ||| name == "ul"@
    ||| name == "ol"@
    ||| name == "li"@
    ||| name == "footer"@
    ||| name == "aside"@
    ||| name == "h2"@
    ||| name == "h3"@
    ||| name == "h4"@
    ||| name == "h5"@
    ||| name == "h6"@
}

/// A text in lower case that names a player control.
pub open spec fn names_control(lowered: Seq<char>) -> bool {
    contains(lowered, "play"@) || contains(lowered, "audio"@) || contains(lowered, "video"@)
}

/// A label that names a player control, in small or capital letters.
pub open spec fn is_control_label(label: Seq<char>) -> bool {
    names_control(lowercase(label))
}

/// A role and a text, both in lower case, that make a play button: the
/// role of a button or link, and the text "play".
pub open spec fn is_play_role(lowered_role: Seq<char>, lowered_text: Seq<char>) -> bool {
    (lowered_role == "button"@ || lowered_role == "link"@) && lowered_text == "play"@
}

/// A text in upper case that names one of the magazines.
pub open spec fn names_magazine(upper: Seq<char>) -> bool {
    contains(upper, "THE WATCHTOWER"@) || contains(upper, "AWAKE!"@)
}

/// A text that holds a mark of an issue number or of pages.
pub open spec fn has_issue_marks(text: Seq<char>) -> bool {
    contains(text, "No."@) || contains(text, "pp."@) || contains(text, "pp "@)
}

/// A text in lower case that names the language and holds the title, itself
/// in lower case.
pub open spec fn names_language(lowered_text: Seq<char>, lowered_title: Seq<char>) -> bool {
    contains(lowered_text, "english"@) && contains(lowered_text, lowered_title)
}

/// The element is labelled as a player control, by `aria-label` or by
/// `title`.
pub open spec fn has_control_label(e: ElementView) -> bool {
    ||| attr_of(e, "aria-label"@) matches Some(a) && is_control_label(a)
    ||| attr_of(e, "title"@) matches Some(t) && is_control_label(t)
}

/// The element is a button or link whose whole text is "play".
pub open spec fn is_play_button(doc: Seq<DomNodeView>, i: int) -> bool {
    let e = doc[i].value->Element_0;
    attr_of(e, "role"@) matches Some(role) && is_play_role(
        lowercase(role),
        lowercase(normalize(text_of(doc, i))),
    )
}

/// What makes a player block: a name like a player's, no image, no
/// picture, and at most 20 characters of text.
pub open spec fn player_verdict(
    named_like_player: bool,
    has_image: bool,
    has_picture: bool,
    text_len: nat,
) -> bool {
    named_like_player && !has_image && !has_picture && text_len <= 20
}

/// The element looks like a media player: named like one, without an image
/// and with at most 20 characters of text.
pub open spec fn is_player_block(doc: Seq<DomNodeView>, i: int) -> bool {
    let e = doc[i].value->Element_0;
    player_verdict(
        pattern_matches(PLAYER_PATTERN@, class_id_of(e)),
        first_descendant(doc, i, "img"@) is Some,
        first_descendant(doc, i, "picture"@) is Some,
        normalize(text_of(doc, i)).len(),
    )
}

/// What makes an issue label: the code of an issue, and a mark of an issue
/// number or of pages.
pub open spec fn issue_verdict(holds_code: bool, holds_marks: bool) -> bool {
    holds_code && holds_marks
}

/// The text names a magazine issue.
pub open spec fn is_issue_label(text: Seq<char>) -> bool {
    issue_verdict(pattern_matches(ISSUE_PATTERN@, text), has_issue_marks(text))
}

/// What makes a metadata block: a block-level tag, at most 250 characters
/// of text, not the exact title in it, and one of these: a name like
/// metadata (in an identifier or class that is not blank), the name of a
/// magazine, an issue label, a language label.
pub open spec fn metadata_verdict(
    block_tag: bool,
    text_len: nat,
    holds_title: bool,
    names_blank: bool,
    named_like_metadata: bool,
    names_magazine: bool,
    issue_label: bool,
    language_label: bool,
) -> bool {
    &&& block_tag
    &&& text_len <= 250
    &&& !holds_title
    &&& ((!names_blank && named_like_metadata) || names_magazine || issue_label || language_label)
}

/// The text names the language beside the title.
pub open spec fn is_language_label(text: Seq<char>, title: Option<Seq<char>>) -> bool {
    title matches Some(t) && names_language(lowercase(text), lowercase(t))
}

/// The element is a short block that describes the site and not the
/// article: a block-level element with at most 250 characters of text that
/// does not hold the exact title, and that is named like metadata, names a
/// magazine, names an issue, or names the language beside the title.
pub open spec fn is_metadata_block(doc: Seq<DomNodeView>, i: int, title: Option<Seq<char>>) -> bool {
    let e = doc[i].value->Element_0;
    let text = normalize(text_of(doc, i));
    metadata_verdict(
        is_block_tag(e.name),
        text.len(),
        title matches Some(t) && has_exact_text(doc, i, t),
        trim(class_id_of(e)).len() == 0,
        pattern_matches(METADATA_PATTERN@, class_id_of(e)),
        names_magazine(uppercase(text)),
        is_issue_label(text),
        is_language_label(text, title),
    )
}

/// Element `i` is left out of the rendered text, with all below it.
pub open spec fn is_skipped(doc: Seq<DomNodeView>, i: int, ctx: WalkCtxView) -> bool {
    let e = doc[i].value->Element_0;
    ||| is_hard_skip_tag(e.name)
    ||| is_chrome_tag(e.name)
    ||| e.name == "header"@ && !ctx.in_article_or_main
    ||| has_control_label(e)
    ||| is_play_button(doc, i)
    ||| is_player_block(doc, i)
    ||| is_metadata_block(doc, i, ctx.title)
}

/// Whether `name` is a tag whose content is never text of the article.
pub fn hard_skip_tag(name: &Vec<char>) -> (r: bool)
    ensures
        r == is_hard_skip_tag(name@),
{
    eq_str(name, "script") || eq_str(name, "style") || eq_str(name, "noscript") || eq_str(
        name,
        "svg",
    ) || eq_str(name, "form") || eq_str(name, "button") || eq_str(name, "audio") || eq_str(
        name,
        "video",
    ) || eq_str(name, "source") || eq_str(name, "track")
}

/// Whether `name` is a tag of page furniture.
pub fn chrome_tag(name: &Vec<char>) -> (r: bool)
    ensures
        r == is_chrome_tag(name@),
{
    eq_str(name, "nav") || eq_str(name, "footer") || eq_str(name, "aside")
}

/// Whether `name` is a tag of block level.
pub fn block_tag(name: &Vec<char>) -> (r: bool)
    ensures
        r == is_block_tag(name@),
{
    eq_str(name, "section") || eq_str(name, "div") || eq_str(name, "p") || eq_str(name, "ul")
        || eq_str(name, "ol") || eq_str(name, "li") || eq_str(name, "footer") || eq_str(
        name,
        "aside",
    ) || eq_str(name, "h2") || eq_str(name, "h3") || eq_str(name, "h4") || eq_str(name, "h5")
        || eq_str(name, "h6")
}

/// Whether a text in lower case names a player control.
pub fn control_word(lowered: &Vec<char>) -> (r: bool)
    ensures
        r == names_control(lowered@),
{
    contains_str(lowered, "play") || contains_str(lowered, "audio") || contains_str(
        lowered,
        "video",
    )
}

/// Whether a role and a text, both in lower case, make a play button.
pub fn play_role(lowered_role: &Vec<char>, lowered_text: &Vec<char>) -> (r: bool)
    ensures
        r == is_play_role(lowered_role@, lowered_text@),
{
    (eq_str(lowered_role, "button") || eq_str(lowered_role, "link")) && eq_str(
        lowered_text,
        "play",
    )
}

/// Whether a text in upper case names one of the magazines.
pub fn magazine_name(upper: &Vec<char>) -> (r: bool)
    ensures
        r == names_magazine(upper@),
{
    contains_str(upper, "THE WATCHTOWER") || contains_str(upper, "AWAKE!")
}

/// Whether a text holds a mark of an issue number or of pages.
pub fn issue_marks(text: &Vec<char>) -> (r: bool)
    ensures
        r == has_issue_marks(text@),
{
    contains_str(text, "No.") || contains_str(text, "pp.") || contains_str(text, "pp ")
}

/// Whether a text in lower case names the language and holds the title,
/// itself in lower case.
pub fn language_name(lowered_text: &Vec<char>, lowered_title: &Vec<char>) -> (r: bool)
    ensures
        r == names_language(lowered_text@, lowered_title@),
{
    contains_str(lowered_text, "english") && find_in(lowered_text, lowered_title)
}

/// Whether `label` names a player control.
pub fn control_label(label: &Vec<char>) -> (r: bool)
    ensures
        r == is_control_label(label@),
{
    control_word(&to_lowercase(label))
}

/// Whether the element is labelled as a player control.
pub fn labelled_as_control(e: &ElementData) -> (r: bool)
    ensures
        r == has_control_label(e@),
{
    let by_aria = match e.attr("aria-label") {
        Some(a) => control_label(&a),
        None => false,
    };
    if by_aria {
        return true;
    }
    match e.attr("title") {
        Some(t) => control_label(&t),
        None => false,
    }
}

/// Whether element `i` is a button or link whose whole text is "play".
pub fn play_button(doc: &Document, i: usize) -> (r: bool)
    requires
        is_element(doc@, i as int),
    ensures
        r == is_play_button(doc@, i as int),
{
    let e = doc.element(i).unwrap();
    match e.attr("role") {
        Some(role) => {
            play_role(&to_lowercase(&role), &to_lowercase(&normalized(&doc.collect_text(i))))
        },
        None => false,
    }
}

/// Decides from what was found of an element whether it is a player block.
pub fn judge_player(named_like_player: bool, has_image: bool, has_picture: bool, text_len: usize) -> (r:
    bool)
    ensures
        r == player_verdict(named_like_player, has_image, has_picture, text_len as nat),
{
    named_like_player && !has_image && !has_picture && text_len <= 20
}

/// Decides from what was found in a text whether it is an issue label.
pub fn judge_issue(holds_code: bool, holds_marks: bool) -> (r: bool)
    ensures
        r == issue_verdict(holds_code, holds_marks),
{
    holds_code && holds_marks
}

/// Decides from what was found of an element whether it is a metadata
/// block.
pub fn judge_metadata(
    block_tag: bool,
    text_len: usize,
    holds_title: bool,
    names_blank: bool,
    named_like_metadata: bool,
    names_magazine: bool,
    issue_label: bool,
    language_label: bool,
) -> (r: bool)
    ensures
        r == metadata_verdict(
            block_tag,
            text_len as nat,
            holds_title,
            names_blank,
            named_like_metadata,
            names_magazine,
            issue_label,
            language_label,
        ),
{
    block_tag && text_len <= 250 && !holds_title && ((!names_blank && named_like_metadata)
        || names_magazine || issue_label || language_label)
}

/// Whether element `i` looks like a media player.
pub fn player_block(doc: &Document, i: usize, patterns: &RulePatterns) -> (r: bool)
    requires
        is_element(doc@, i as int),
        patterns.wf(),
    ensures
        r == is_player_block(doc@, i as int),
{
    let e = doc.element(i).unwrap();
    let named = patterns.player.is_match(&e.class_id());
    if !named {
        return judge_player(false, false, false, 0);
    }
    judge_player(
        named,
        doc.has_descendant_of_tag(i, "img"),
        doc.has_descendant_of_tag(i, "picture"),
        normalized(&doc.collect_text(i)).len(),
    )
}

/// Whether `text` names a magazine issue.
pub fn issue_label(text: &Vec<char>, patterns: &RulePatterns) -> (r: bool)
    requires
        patterns.wf(),
    ensures
        r == is_issue_label(text@),
{
    judge_issue(patterns.issue.is_match(text), issue_marks(text))
}

/// Whether `text` names the language beside the title.
pub fn language_label(text: &Vec<char>, title: Option<&Vec<char>>) -> (r: bool)
    ensures
        r == is_language_label(
            text@,
            match title {
                Some(t) => Some(t@),
                None => None,
            },
        ),
{
    match title {
        Some(t) => language_name(&to_lowercase(text), &to_lowercase(t)),
        None => false,
    }
}

/// Whether element `i` is a short block that describes the site and not
/// the article.
pub fn metadata_block(
    doc: &Document,
    i: usize,
    title: Option<&Vec<char>>,
    patterns: &RulePatterns,
) -> (r: bool)
    requires
        is_element(doc@, i as int),
        patterns.wf(),
    ensures
        r == is_metadata_block(
            doc@,
            i as int,
            match title {
                Some(t) => Some(t@),
                None => None,
            },
        ),
{
    let e = doc.element(i).unwrap();
    let name = chars_of(e.name.as_str());
    if !block_tag(&name) {
        return judge_metadata(false, 0, false, true, false, false, false, false);
    }
    let text = normalized(&doc.collect_text(i));
    if text.len() > 250 {
        return judge_metadata(true, text.len(), false, true, false, false, false, false);
    }
    let holds_title = match title {
        Some(t) => doc.element_has_exact_text(i, t),
        None => false,
    };
    if holds_title {
        return judge_metadata(true, text.len(), true, true, false, false, false, false);
    }
    let class_id = e.class_id();
    judge_metadata(
        true,
        text.len(),
        holds_title,
        trimmed(&class_id).len() == 0,
        patterns.metadata.is_match(&class_id),
        magazine_name(&to_uppercase(&text)),
        issue_label(&text, patterns),
        language_label(&text, title),
    )
}

/// Whether element `i` is left out of the rendered text.
pub fn skipped(doc: &Document, i: usize, ctx: &WalkCtx) -> (r: bool)
    requires
        is_element(doc@, i as int),
        ctx.wf(),
    ensures
        r == is_skipped(doc@, i as int, ctx@),
{
    let e = doc.element(i).unwrap();
    let name = chars_of(e.name.as_str());
    if hard_skip_tag(&name) || chrome_tag(&name) {
        return true;
    }
    if eq_str(&name, "header") && !ctx.in_article_or_main {
        return true;
    }
    labelled_as_control(e) || play_button(doc, i) || player_block(doc, i, ctx.patterns)
        || metadata_block(doc, i, ctx.title, ctx.patterns)
}

} // verus!
