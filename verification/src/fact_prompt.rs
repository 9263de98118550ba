//! The prompt that asks an LLM to extract key facts from a conversation:
//! the categories to look for, the rules of style and selection, the facts
//! already stored and the conversation itself.
use vstd::prelude::*;
use crate::text::{to_owned_string, push_str, str_eq};
use crate::facts::{FactCategory, CategoryView, KeyFact};
use crate::facts_config::{FactsConfig, CategoryDefinition, DedupMethod};
use crate::chat::{ChatMessage, Role};

verus! {

/// The opening of the prompt.
pub open spec fn prompt_header() -> Seq<char> {
    HEADER@
}

/// The output format and the rules of style and selection.
pub open spec fn prompt_rules() -> Seq<char> {
    RULES@
}

/// The description of a built-in category, by its name.
pub open spec fn builtin_description(name: Seq<char>) -> Option<Seq<char>> {
    if name == "user_preference"@ {
        Some("Preferences, likes, dislikes, and choices the actor expressed"@)
    } else if name == "user_context"@ {
        Some("Background info about the user: job title, location, home, family, personal situation. Never about the assistant."@)
    } else if name == "decision"@ {
        Some("Decisions the user made during the conversation"@)
    } else if name == "agreement"@ {
        Some("Things the user agreed to or confirmed"@)
    } else {
        None
    }
}

/// One category line.
pub open spec fn category_line(name: Seq<char>, description: Seq<char>) -> Seq<char> {
    "- "@ + name + ": "@ + description + "\n"@
}

/// Lines for the configured category names that are built in.
pub open spec fn configured_lines(names: Seq<String>) -> Seq<char>
    decreases names.len(),
{
    if names.len() == 0 {
        Seq::empty()
    } else {
        let n = names.last()@;
        configured_lines(names.drop_last()) + match builtin_description(n) {
            Some(d) => category_line(n, d),
            None => Seq::empty(),
        }
    }
}

/// Lines for the user-defined categories.
pub open spec fn custom_lines(cats: Seq<CategoryDefinition>) -> Seq<char>
    decreases cats.len(),
{
    if cats.len() == 0 {
        Seq::empty()
    } else {
        custom_lines(cats.drop_last()) + category_line(cats.last().name@, cats.last().description@)
    }
}

/// Lines for all built-in categories.
pub open spec fn all_builtin_lines() -> Seq<char> {
    category_line("user_preference"@, "Preferences, likes, dislikes, and choices the actor expressed"@)
        + category_line("user_context"@,
            "Background info about the user: job title, location, home, family, personal situation. Never about the assistant."@)
        + category_line("decision"@, "Decisions the user made during the conversation"@)
        + category_line("agreement"@, "Things the user agreed to or confirmed"@)
}

/// The name under which a category is shown.
pub open spec fn category_name(c: CategoryView) -> Seq<char> {
    match c {
        CategoryView::UserPreference => "user_preference"@,
        CategoryView::UserContext => "user_context"@,
        CategoryView::Decision => "decision"@,
        CategoryView::Agreement => "agreement"@,
        CategoryView::Custom(s) => s,
    }
}

/// Lines listing stored facts with their categories.
pub open spec fn existing_lines(facts: Seq<KeyFact>) -> Seq<char>
    decreases facts.len(),
{
    if facts.len() == 0 {
        Seq::empty()
    } else {
        let f = facts.last();
        existing_lines(facts.drop_last()) + "- ["@ + category_name(f.category@) + "] "@ + f.content@ + "\n"@
    }
}

/// How a role is named in the transcript.
pub open spec fn role_label(r: Role) -> Seq<char> {
    match r {
        Role::User => "User"@,
        Role::Assistant => "Assistant"@,
        Role::System => "System"@,
        _ => "Other"@,
    }
}

/// The transcript of the conversation.
pub open spec fn transcript(msgs: Seq<ChatMessage>) -> Seq<char>
    decreases msgs.len(),
{
    if msgs.len() == 0 {
        Seq::empty()
    } else {
        let m = msgs.last();
        transcript(msgs.drop_last()) + role_label(m.role) + ": "@ + m.content@ + "\n"@
    }
}

/// The section on stored facts, present when there are some.
pub open spec fn existing_section(method: DedupMethod, facts: Seq<KeyFact>) -> Seq<char> {
    if facts.len() == 0 {
        Seq::empty()
    } else {
        match method {
            DedupMethod::Llm => "\nExisting facts (do not duplicate or paraphrase, but update if contradicted):\n"@
                + existing_lines(facts),
            DedupMethod::Exact => "\nExisting facts (do not extract duplicates or paraphrases of these):\n"@
                + existing_lines(facts),
        }
    }
}

/// The extraction prompt: a configured prompt as it is, or the built-in one.
pub open spec fn spec_build_prompt(config: &FactsConfig, messages: Seq<ChatMessage>, existing: Seq<KeyFact>, categories: Seq<CategoryDefinition>) -> Seq<char> {
    match &config.extraction_prompt {
        Some(p) => p@,
        None => prompt_header() + configured_lines(config.categories@) + custom_lines(categories)
            + (if config.categories@.len() == 0 && categories.len() == 0 { all_builtin_lines() } else { Seq::empty() })
            + prompt_rules() + existing_section(config.dedup.method, existing)
            + "\nConversation:\n"@ + transcript(messages) + "\nOutput JSON array only. No explanation.\n"@
    }
}

/// The opening of the prompt.
pub const HEADER: &'static str = "You are a fact extraction assistant.\n\
             Extract key facts from the conversation below.\n\n\
             Categories to look for:\n";

/// The output format and the rules of style and selection.
pub const RULES: &'static str = "\nFor each fact, output a JSON array. Each element:\n\
             {\n  \"category\": \"<category_name>\",\n  \"content\": \"<fact in English>\",\n  \
             \"confidence\": <0.0 to 1.0>,\n  \"actor_id\": \"<who this fact is about, or null>\"\n}\n\n\
             Content style rules (very important):\n\
             - Write each fact as a short, direct statement about the user.\n\
             - Start the content with \"User \" or use the user's name when known. Examples: \"User name is Jay\", \"User works as an AI engineer\", \"Jay prefers Python\".\n\
             - Do NOT write facts in third person about \"the actor\", \"this person\", \"the user's identity\", or similar abstract phrasing.\n\
             - Keep each fact under 15 words. One fact per item, no compound sentences.\n\n\
             Selection rules:\n\
             - Output facts in English regardless of conversation language.\n\
             - \"actor_id\" is the person the fact describes. null if general.\n\
             - Only extract facts with confidence >= 0.5.\n\
             - Do not extract greetings, filler, or obvious conversation mechanics.\n\
             - If a fact updates or contradicts an existing fact, extract the new version.\n\
             - Do NOT extract statements about what the assistant knows, can do, or cannot access.\n\
             - Do NOT extract the assistant's capabilities, limitations, or tool access (e.g. do not extract 'the assistant cannot access account details').\n\
             - Do NOT extract meta-facts about the conversation itself (e.g. what was asked, what was said, or the act of asking).\n\
             - Only extract concrete facts about the user: name, job, location, background, preferences, decisions, and agreements.\n\
             - Pick the most specific category. A name, job, or location is user_context, NOT user_preference.\n";

fn push_line(out: &mut String, name: &str, description: &str)
    ensures
        final(out)@ == old(out)@ + category_line(name@, description@),
{
    push_str(out, "- ");
    push_str(out, name);
    push_str(out, ": ");
    push_str(out, description);
    push_str(out, "\n");
    assert(final(out)@ =~= old(out)@ + category_line(name@, description@));
}

fn builtin_of(name: &str) -> (r: Option<&'static str>)
    ensures
        match r {
            Some(d) => builtin_description(name@) == Some(d@),
            None => builtin_description(name@) is None,
        },
{
    if str_eq(name, "user_preference") {
        Some("Preferences, likes, dislikes, and choices the actor expressed")
    } else if str_eq(name, "user_context") {
        Some("Background info about the user: job title, location, home, family, personal situation. Never about the assistant.")
    } else if str_eq(name, "decision") {
        Some("Decisions the user made during the conversation")
    } else if str_eq(name, "agreement") {
        Some("Things the user agreed to or confirmed")
    } else {
        None
    }
}

/// The name under which a category is shown.
pub fn category_label(c: &FactCategory) -> (r: String)
    ensures
        r@ == category_name(c@),
{
    match c {
        FactCategory::UserPreference => to_owned_string("user_preference"),
        FactCategory::UserContext => to_owned_string("user_context"),
        FactCategory::Decision => to_owned_string("decision"),
        FactCategory::Agreement => to_owned_string("agreement"),
        FactCategory::Custom(s) => s.clone(),
    }
}

fn push_existing(out: &mut String, facts: &Vec<KeyFact>)
    ensures
        final(out)@ == old(out)@ + existing_lines(facts@),
{
    let mut i: usize = 0;
    assert(facts@.take(0) =~= Seq::<KeyFact>::empty());
    assert(out@ =~= old(out)@ + existing_lines(facts@.take(0)));
    while i < facts.len()
        invariant
            i <= facts@.len(),
            out@ == old(out)@ + existing_lines(facts@.take(i as int)),
        decreases facts@.len() - i,
    {
        let f = &facts[i];
        let label = category_label(&f.category);
        let ghost before = out@;
        push_str(out, "- [");
        push_str(out, label.as_str());
        push_str(out, "] ");
        push_str(out, f.content.as_str());
        push_str(out, "\n");
        proof {
            assert(facts@.take(i + 1).drop_last() =~= facts@.take(i as int));
            assert(facts@.take(i + 1).last() == facts@[i as int]);
            assert(out@ =~= old(out)@ + existing_lines(facts@.take(i + 1)));
        }
        i = i + 1;
    }
    assert(facts@.take(facts@.len() as int) =~= facts@);
}

fn role_text(r: Role) -> (s: &'static str)
    ensures
        s@ == role_label(r),
{
    match r {
        Role::User => "User",
        Role::Assistant => "Assistant",
        Role::System => "System",
        _ => "Other",
    }
}

fn push_transcript(out: &mut String, msgs: &Vec<ChatMessage>)
    ensures
        final(out)@ == old(out)@ + transcript(msgs@),
{
    let mut i: usize = 0;
    assert(msgs@.take(0) =~= Seq::<ChatMessage>::empty());
    assert(out@ =~= old(out)@ + transcript(msgs@.take(0)));
    while i < msgs.len()
        invariant
            i <= msgs@.len(),
            out@ == old(out)@ + transcript(msgs@.take(i as int)),
        decreases msgs@.len() - i,
    {
        let m = &msgs[i];
        push_str(out, role_text(m.role));
        push_str(out, ": ");
        push_str(out, m.content.as_str());
        push_str(out, "\n");
        proof {
            assert(msgs@.take(i + 1).drop_last() =~= msgs@.take(i as int));
            assert(msgs@.take(i + 1).last() == msgs@[i as int]);
            assert(out@ =~= old(out)@ + transcript(msgs@.take(i + 1)));
        }
        i = i + 1;
    }
    assert(msgs@.take(msgs@.len() as int) =~= msgs@);
}

fn push_categories(out: &mut String, config: &FactsConfig, categories: &Vec<CategoryDefinition>)
    ensures
        final(out)@ == old(out)@ + configured_lines(config.categories@) + custom_lines(categories@)
            + (if config.categories@.len() == 0 && categories@.len() == 0 { all_builtin_lines() } else { Seq::empty() }),
{
    let names = &config.categories;
    let mut i: usize = 0;
    assert(names@.take(0) =~= Seq::<String>::empty());
    assert(out@ =~= old(out)@ + configured_lines(names@.take(0)));
    while i < names.len()
        invariant
            names == &config.categories,
            i <= names@.len(),
            out@ == old(out)@ + configured_lines(names@.take(i as int)),
        decreases names@.len() - i,
    {
        let n = names[i].as_str();
        let ghost before = out@;
        match builtin_of(n) {
            Some(d) => push_line(out, n, d),
            None => {},
        }
        proof {
            assert(names@.take(i + 1).drop_last() =~= names@.take(i as int));
            assert(names@.take(i + 1).last() == names@[i as int]);
            assert(out@ =~= old(out)@ + configured_lines(names@.take(i + 1)));
        }
        i = i + 1;
    }
    assert(names@.take(names@.len() as int) =~= names@);
    let ghost mid = out@;
    let mut j: usize = 0;
    assert(categories@.take(0) =~= Seq::<CategoryDefinition>::empty());
    assert(out@ =~= mid + custom_lines(categories@.take(0)));
    while j < categories.len()
        invariant
            j <= categories@.len(),
            out@ == mid + custom_lines(categories@.take(j as int)),
        decreases categories@.len() - j,
    {
        let c = &categories[j];
        push_line(out, c.name.as_str(), c.description.as_str());
        proof {
            assert(categories@.take(j + 1).drop_last() =~= categories@.take(j as int));
            assert(categories@.take(j + 1).last() == categories@[j as int]);
            assert(out@ =~= mid + custom_lines(categories@.take(j + 1)));
        }
        j = j + 1;
    }
    assert(categories@.take(categories@.len() as int) =~= categories@);
    let ghost mid2 = out@;
    if names.len() == 0 && categories.len() == 0 {
        push_line(out, "user_preference", "Preferences, likes, dislikes, and choices the actor expressed");
        push_line(out, "user_context", "Background info about the user: job title, location, home, family, personal situation. Never about the assistant.");
        push_line(out, "decision", "Decisions the user made during the conversation");
        push_line(out, "agreement", "Things the user agreed to or confirmed");
        assert(out@ =~= mid2 + all_builtin_lines());
    } else {
        assert(out@ =~= mid2 + Seq::<char>::empty());
    }
}

/// Builds the extraction prompt for a conversation, given the facts already
/// stored and the user-defined categories.
pub fn build_prompt(config: &FactsConfig, messages: &Vec<ChatMessage>, existing: &Vec<KeyFact>, categories: &Vec<CategoryDefinition>) -> (r: String)
    ensures
        r@ == spec_build_prompt(config, messages@, existing@, categories@),
{
    match &config.extraction_prompt {
        Some(p) => {
            return p.clone();
        },
        None => {},
    }
    let mut prompt = to_owned_string(HEADER);
    push_categories(&mut prompt, config, categories);
    push_str(&mut prompt, RULES);
    let ghost before_existing = prompt@;
    if existing.len() > 0 {
        match config.dedup.method {
            DedupMethod::Llm => {
                push_str(&mut prompt, "\nExisting facts (do not duplicate or paraphrase, but update if contradicted):\n");
            },
            DedupMethod::Exact => {
                push_str(&mut prompt, "\nExisting facts (do not extract duplicates or paraphrases of these):\n");
            },
        }
        push_existing(&mut prompt, existing);
    }
    assert(prompt@ =~= before_existing + existing_section(config.dedup.method, existing@));
    push_str(&mut prompt, "\nConversation:\n");
    push_transcript(&mut prompt, messages);
    push_str(&mut prompt, "\nOutput JSON array only. No explanation.\n");
    assert(prompt@ =~= spec_build_prompt(config, messages@, existing@, categories@));
    prompt
}

} // verus!
