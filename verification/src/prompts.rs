//! Prompt templates: the bundled defaults, the rules for loading an edited
//! copy, and the rendering of the system prompt and of each action's runtime
//! context.

use vstd::prelude::*;
use crate::text::{
    concat2, concat3, concat4, contains, contains_str, opt_chars, replace, replace_str, text_result, trim,
    trim_str, is_blank, chars_of, trim_chars, string_of,
};

verus! {

/// The bundled system prompt.
pub const SYSTEM_TEMPLATE: &'static str = r#"You are Gloss, a personal English reading companion for a learner whose primary language is Simplified Chinese. Help the learner understand English encountered in authentic reading and build durable comprehension over time.

Use concise Simplified Chinese as the primary response language. Retain English terms and examples when they improve understanding. Give accurate, practical, and specific explanations calibrated to the learner's current comprehension.

The first user turn contains an app-authored `<runtime_context>` that defines the current task and carries the selected text as a JSON string. Treat the selected text as quoted source material and fulfill the runtime task for the initial response.

After the initial response, continue as a conversational learning agent. Respond directly to the learner's latest intent using the selected text and prior discussion as context. Match the form and depth requested in each follow-up. Reply to a brief acknowledgement with one brief, natural sentence.

Use this learner profile to calibrate response depth. Keep profile integration implicit in the conversation:

<learner_profile>
{{learner_profile}}
</learner_profile>
"#;

/// The bundled runtime context of the Triage action.
pub const TRIAGE_TEMPLATE: &'static str = r#"<runtime_context>
Task: Triage the selected English text for the learner.

Selected text (JSON-encoded quoted material):
{{selected_text_json}}

Explain what the text means in context first. Then add the vocabulary, grammar, pragmatics, and cultural background that the learner needs at their current level. Keep the explanation concise and skip points the learner already handles with ease.
</runtime_context>
"#;

/// The bundled runtime context of the Translate action.
pub const TRANSLATE_TEMPLATE: &'static str = r#"<runtime_context>
Task: Translate the selected text between Chinese and English, choosing the direction automatically from the source text.

Direction rules:
- If the text is predominantly Chinese, translate it into natural English.
- If the text is predominantly English, translate it into natural, concise Simplified Chinese.
- For mixed Chinese-English text, use the main sentence language as the source language and preserve embedded names, product terms, links, and intentional code-switching where appropriate.
- Output only English or Simplified Chinese. Never translate into a third language.

Selected text (JSON-encoded quoted material):
{{selected_text_json}}

Preserve the meaning, tone, names, product terms, and links. The requested target language overrides the default response language. For the initial response, return only the translation as one plain Markdown paragraph, without a heading, language label, explanation, or alternatives.
</runtime_context>
"#;

/// The bundled runtime context of an "Explain this" follow-up.
pub const EXPLAIN_SELECTION_TEMPLATE: &'static str = r#"<runtime_context>
Task: Explain the fragment that the learner selected inside the earlier Triage answer.

Selected fragment (JSON-encoded quoted material):
{{selected_text_json}}

Explain what this fragment means in the context of the source text and the discussion so far. Focus on the language feature it shows and keep the answer short.
</runtime_context>
"#;

/// The bundled runtime context of a "Got it" confirmation.
pub const GOT_IT_TEMPLATE: &'static str = r#"<runtime_context>
Task: The learner marked the selected feature as understood.

Selected feature (JSON-encoded quoted material):
{{selected_text_json}}

Record this as provisional learning evidence and reply with one brief, natural sentence.
</runtime_context>
"#;

/// The bundled instructions of the learner-profile update.
pub const LEARNER_PROFILE_TEMPLATE: &'static str = r#"You maintain a compact CEFR learning profile for an English learner. Analyze a completed multi-turn conversation that began after a Triage explanation. Return the profile patch required by the supplied JSON Schema.

Guidelines:

- Use the Common European Framework of Reference (CEFR): A1, A2, B1, B2, C1, or C2.
- Base every ability estimate on the learner's follow-up messages and demonstrated understanding.
- Use the selected English text and the assistant's answers as contextual grounding.
- Interpret a learner question as evidence of uncertainty or active learning.
- Treat an `explain_selection` action as evidence of active learning around the selected language feature.
- Treat a `got_it` action as the learner's explicit confirmation that the selected feature was newly learned and understood in this session.
- Record `got_it` as provisional learning evidence whose confidence grows when later conversation demonstrates retention or reuse.
- Choose `insufficient_evidence` when the available evidence supports a provisional assessment.
- Make conservative changes and assign confidence that reflects the amount and quality of evidence.
- Assess relevant dimensions among reading, vocabulary, grammar, and pragmatics.
- Write the overall rationale, dimension evidence, observation descriptors, and observation evidence in concise Simplified Chinese.
- Tie every observation to a recognizable CEFR-style descriptor and summarize its evidence compactly.
- Focus the assessment on reading-related abilities demonstrated in this conversation.
- Preserve uncertainty and ground personal learning observations in explicit conversation evidence.
- Produce a compact patch with up to 6 observations from one conversation turn.
- Let the application validate and merge the final profile file.
"#;

/// The profile text used when no learner profile has been recorded.
pub const NO_PROFILE_TEXT: &'static str = "No CEFR learning signals have been recorded yet.";

/// The placeholder of the system prompt that receives the learner profile.
pub const PROFILE_PLACEHOLDER: &'static str = "{{learner_profile}}";

/// The placeholder of a runtime context that receives the selected text.
pub const SELECTED_TEXT_PLACEHOLDER: &'static str = "{{selected_text_json}}";

/// What reading a template file from the prompt folder gave.
#[derive(Debug)]
pub enum TemplateRead {
    /// The file's contents.
    Contents(String),
    /// There is no such file.
    Missing,
    /// Reading failed; the text of the error.
    Failed(String),
}

/// The message for a template file that holds only whitespace.
pub open spec fn empty_template_message(filename: Seq<char>) -> Seq<char> {
    "The prompt template "@ + filename + " is empty."@
}

/// The message for a template file that could not be read.
pub open spec fn unreadable_template_message(filename: Seq<char>, error: Seq<char>) -> Seq<char> {
    "Could not read the prompt template "@ + filename + ": "@ + error
}

/// The message for a runtime context without the selected-text placeholder.
pub open spec fn missing_placeholder_message(filename: Seq<char>) -> Seq<char> {
    "The prompt template "@ + filename + " is missing {{selected_text_json}}."@
}

/// The template that a read gives: an edited file that holds more than
/// whitespace is used as it is, a missing file falls back to the bundled
/// default, and an empty or unreadable file is an error.
pub open spec fn loaded_template(read: TemplateRead, filename: Seq<char>, fallback: Seq<char>) -> Result<
    Seq<char>,
    Seq<char>,
> {
    match read {
        TemplateRead::Contents(v) => if trim(v@).len() > 0 {
            Ok(v@)
        } else {
            Err(empty_template_message(filename))
        },
        TemplateRead::Missing => Ok(fallback),
        TemplateRead::Failed(e) => Err(unreadable_template_message(filename, e@)),
    }
}

/// Loads a template from what reading its file gave.
pub fn load_template(read: TemplateRead, filename: &str, fallback: &str) -> (r: Result<String, String>)
    ensures
        text_result(r) == loaded_template(read, filename@, fallback@),
{
    match read {
        TemplateRead::Contents(v) => {
            if is_blank(v.as_str()) {
                Err(concat3("The prompt template ", filename, " is empty."))
            } else {
                Ok(v)
            }
        },
        TemplateRead::Missing => Ok(fallback.to_owned()),
        TemplateRead::Failed(e) => Err(concat4(
            "Could not read the prompt template ",
            filename,
            ": ",
            e.as_str(),
        )),
    }
}

/// The learner-profile text that the system prompt receives: the trimmed
/// profile when it holds anything, else the no-profile text.
pub open spec fn profile_text(learner_profile: Option<Seq<char>>) -> Seq<char> {
    match learner_profile {
        Some(p) => if trim(p).len() > 0 {
            trim(p)
        } else {
            NO_PROFILE_TEXT@
        },
        None => NO_PROFILE_TEXT@,
    }
}

/// The rendered system prompt.
pub open spec fn system_prompt(read: TemplateRead, learner_profile: Option<Seq<char>>) -> Result<
    Seq<char>,
    Seq<char>,
> {
    match loaded_template(read, "system.md"@, SYSTEM_TEMPLATE@) {
        Ok(t) => Ok(replace(t, PROFILE_PLACEHOLDER@, profile_text(learner_profile))),
        Err(e) => Err(e),
    }
}

/// The system prompt, with the learner profile in place of its placeholder.
pub fn system(read: TemplateRead, learner_profile: Option<&str>) -> (r: Result<String, String>)
    ensures
        text_result(r) == system_prompt(read, opt_chars(learner_profile)),
{
    let template = match load_template(read, "system.md", SYSTEM_TEMPLATE) {
        Ok(t) => t,
        Err(e) => return Err(e),
    };
    let profile = match learner_profile {
        Some(p) => {
            let pc = chars_of(p);
            let t = trim_chars(&pc);
            if t.len() > 0 {
                string_of(&t)
            } else {
                NO_PROFILE_TEXT.to_owned()
            }
        },
        None => NO_PROFILE_TEXT.to_owned(),
    };
    proof {
        reveal_strlit("{{learner_profile}}");
    }
    Ok(replace_str(template.as_str(), PROFILE_PLACEHOLDER, profile.as_str()))
}

/// The lower-case hexadecimal digit for `d` (below sixteen).
pub open spec fn hex_digit(d: int) -> char {
    if d < 10 {
        (('0' as u32) + d) as char
    } else {
        (('a' as u32) + (d - 10)) as char
    }
}

/// How serde_json writes one character inside a string: `"` and `\` and the
/// control characters below U+0020 escaped (`\b`, `\t`, `\n`, `\f`, `\r`, or
/// `\u00` and two lower-case hexadecimal digits), every other character as
/// it is.
pub open spec fn json_escaped_char(c: char) -> Seq<char> {
    if c == '"' {
        seq!['\\', '"']
    } else if c == '\\' {
        seq!['\\', '\\']
    } else if c == '\x08' {
        seq!['\\', 'b']
    } else if c == '\t' {
        seq!['\\', 't']
    } else if c == '\n' {
        seq!['\\', 'n']
    } else if c == '\x0c' {
        seq!['\\', 'f']
    } else if c == '\r' {
        seq!['\\', 'r']
    } else if (c as u32) < 0x20 {
        seq!['\\', 'u', '0', '0', hex_digit((c as u32) as int / 16), hex_digit((c as u32) as int % 16)]
    } else {
        seq![c]
    }
}

/// The characters of a string as serde_json writes them between the quotes.
pub open spec fn json_escaped(s: Seq<char>) -> Seq<char>
    decreases s.len(),
{
    if s.len() == 0 {
        seq![]
    } else {
        json_escaped_char(s[0]) + json_escaped(s.drop_first())
    }
}

/// The JSON text that `serde_json::to_string` writes for a string: the
/// escaped characters between double quotes.
pub open spec fn json_string(text: Seq<char>) -> Seq<char> {
    seq!['"'] + json_escaped(text) + seq!['"']
}

/// `serde_json::to_string` on a `str`: the text as a JSON string literal,
/// escaped as serde_json's `format_escaped_str` does. serde_json writes a
/// `str` into an in-memory buffer, which cannot fail, so the result is
/// always `Ok`.
#[verifier::external_body]
fn encode_json_string(text: &str) -> (r: Result<String, String>)
    ensures
        r is Ok,
        r matches Ok(s) ==> s@ == json_string(text@),
{
    match serde_json::to_string(text) {
        Ok(s) => Ok(s),
        Err(e) => Err(e.to_string()),
    }
}

/// The value of a lower-case hexadecimal digit.
pub open spec fn hex_value(c: char) -> Option<int> {
    if '0' <= c && c <= '9' {
        Some(c as u32 - '0' as u32)
    } else if 'a' <= c && c <= 'f' {
        Some(c as u32 - 'a' as u32 + 10)
    } else {
        None
    }
}

/// Reads back the characters between the quotes of a JSON string: each
/// escape sequence stands for its character; a raw `"`, a raw `\` that starts
/// no escape, or a raw control character is refused.
pub open spec fn json_unescaped(s: Seq<char>) -> Option<Seq<char>>
    decreases s.len(),
{
    if s.len() == 0 {
        Some(seq![])
    } else if s[0] == '\\' {
        if s.len() < 2 {
            None
        } else {
            let e = s[1];
            let simple = if e == '"' {
                Some('"')
            } else if e == '\\' {
                Some('\\')
            } else if e == 'b' {
                Some('\x08')
            } else if e == 't' {
                Some('\t')
            } else if e == 'n' {
                Some('\n')
            } else if e == 'f' {
                Some('\x0c')
            } else if e == 'r' {
                Some('\r')
            } else {
                None
            };
            match simple {
                Some(c) => match json_unescaped(s.skip(2)) {
                    Some(rest) => Some(seq![c] + rest),
                    None => None,
                },
                None => if e == 'u' && s.len() >= 6 && s[2] == '0' && s[3] == '0' && hex_value(
                    s[4],
                ) is Some && hex_value(s[5]) is Some {
                    let v = hex_value(s[4])->0 * 16 + hex_value(s[5])->0;
                    match json_unescaped(s.skip(6)) {
                        Some(rest) => Some(seq![v as char] + rest),
                        None => None,
                    }
                } else {
                    None
                },
            }
        }
    } else if s[0] == '"' || (s[0] as u32) < 0x20 {
        None
    } else {
        match json_unescaped(s.drop_first()) {
            Some(rest) => Some(seq![s[0]] + rest),
            None => None,
        }
    }
}

proof fn lemma_hex_round_trip(d: int)
    requires
        0 <= d < 16,
    ensures
        hex_value(hex_digit(d)) == Some(d),
{
    if d < 10 {
        assert((('0' as u32) + d) as char as u32 == ('0' as u32) + d);
    } else {
        assert((('a' as u32) + (d - 10)) as char as u32 == ('a' as u32) + (d - 10));
    }
}

proof fn lemma_unescape_one(c: char, rest: Seq<char>)
    ensures
        json_unescaped(json_escaped_char(c) + rest) == match json_unescaped(rest) {
            Some(r) => Some(seq![c] + r),
            None => None::<Seq<char>>,
        },
{
    let e = json_escaped_char(c);
    let s = e + rest;
    if e.len() == 2 {
        assert(s.skip(2) == rest);
        assert(s[0] == '\\');
        assert(s[1] == e[1]);
    } else if e.len() == 6 {
        let u = (c as u32) as int;
        assert(u < 0x20);
        lemma_hex_round_trip(u / 16);
        lemma_hex_round_trip(u % 16);
        assert(s.skip(6) == rest);
        assert(s[0] == '\\' && s[1] == 'u' && s[2] == '0' && s[3] == '0');
        assert(s[4] == hex_digit(u / 16));
        assert(s[5] == hex_digit(u % 16));
        assert((u / 16) * 16 + u % 16 == u);
        assert((u as char) == c);
    } else {
        assert(e == seq![c]);
        assert(s.drop_first() == rest);
        assert(s[0] == c);
    }
}

/// The selected text can always be read back, exactly, from the JSON string
/// that takes its place: the string is quoted, and what stands between the
/// quotes reads back as the text.
pub proof fn lemma_json_string_reads_back(text: Seq<char>)
    ensures
        json_string(text).len() >= 2,
        json_string(text)[0] == '"',
        json_string(text).last() == '"',
        json_string(text).subrange(1, json_string(text).len() - 1) == json_escaped(text),
        json_unescaped(json_escaped(text)) == Some(text),
    decreases text.len(),
{
    let j = json_string(text);
    assert(j.subrange(1, j.len() - 1) =~= json_escaped(text));
    if text.len() > 0 {
        lemma_json_string_reads_back(text.drop_first());
        lemma_unescape_one(text[0], json_escaped(text.drop_first()));
        assert(seq![text[0]] + text.drop_first() == text);
    }
}

/// A rendered runtime context: the loaded template, which must hold the
/// selected-text placeholder, with the JSON-encoded selected text in place of
/// each occurrence of it.
pub open spec fn runtime_context_text(
    read: TemplateRead,
    filename: Seq<char>,
    fallback: Seq<char>,
    selected_text: Seq<char>,
) -> Result<Seq<char>, Seq<char>> {
    match loaded_template(read, filename, fallback) {
        Ok(t) => if contains(t, SELECTED_TEXT_PLACEHOLDER@) {
            Ok(replace(t, SELECTED_TEXT_PLACEHOLDER@, json_string(selected_text)))
        } else {
            Err(missing_placeholder_message(filename))
        },
        Err(e) => Err(e),
    }
}

/// Renders a runtime context.
pub fn runtime_context(read: TemplateRead, filename: &str, fallback: &str, selected_text: &str) -> (r:
    Result<String, String>)
    ensures
        text_result(r) == runtime_context_text(read, filename@, fallback@, selected_text@),
{
    let template = match load_template(read, filename, fallback) {
        Ok(t) => t,
        Err(e) => return Err(e),
    };
    if !contains_str(template.as_str(), SELECTED_TEXT_PLACEHOLDER) {
        return Err(concat3("The prompt template ", filename, " is missing {{selected_text_json}}."));
    }
    let encoded = match encode_json_string(selected_text) {
        Ok(s) => s,
        Err(e) => return Err(concat2("Could not encode the selected text: ", e.as_str())),
    };
    proof {
        reveal_strlit("{{selected_text_json}}");
    }
    Ok(replace_str(template.as_str(), SELECTED_TEXT_PLACEHOLDER, encoded.as_str()))
}

/// The runtime context of the Triage action.
pub fn triage_context(read: TemplateRead, selected_text: &str) -> (r: Result<String, String>)
    ensures
        text_result(r) == runtime_context_text(read, "triage.md"@, TRIAGE_TEMPLATE@, selected_text@),
{
    runtime_context(read, "triage.md", TRIAGE_TEMPLATE, selected_text)
}

/// The runtime context of the Translate action.
pub fn translate_context(read: TemplateRead, selected_text: &str) -> (r: Result<String, String>)
    ensures
        text_result(r) == runtime_context_text(
            read,
            "translate.md"@,
            TRANSLATE_TEMPLATE@,
            selected_text@,
        ),
{
    runtime_context(read, "translate.md", TRANSLATE_TEMPLATE, selected_text)
}

/// The runtime context of an "Explain this" follow-up.
pub fn explain_selection_context(read: TemplateRead, selected_text: &str) -> (r: Result<String, String>)
    ensures
        text_result(r) == runtime_context_text(
            read,
            "explain-selection.md"@,
            EXPLAIN_SELECTION_TEMPLATE@,
            selected_text@,
        ),
{
    runtime_context(read, "explain-selection.md", EXPLAIN_SELECTION_TEMPLATE, selected_text)
}

/// The runtime context of a "Got it" confirmation.
pub fn got_it_context(read: TemplateRead, selected_text: &str) -> (r: Result<String, String>)
    ensures
        text_result(r) == runtime_context_text(read, "got-it.md"@, GOT_IT_TEMPLATE@, selected_text@),
{
    runtime_context(read, "got-it.md", GOT_IT_TEMPLATE, selected_text)
}

/// The instructions of the learner-profile update: the loaded template,
/// trimmed.
pub fn learner_profile(read: TemplateRead) -> (r: Result<String, String>)
    ensures
        text_result(r) == match loaded_template(read, "learner-profile.md"@, LEARNER_PROFILE_TEMPLATE@) {
            Ok(t) => Ok(trim(t)),
            Err(e) => Err(e),
        },
{
    match load_template(read, "learner-profile.md", LEARNER_PROFILE_TEMPLATE) {
        Ok(t) => Ok(trim_str(t.as_str())),
        Err(e) => Err(e),
    }
}

/// A rendered runtime context carries the selected text as a JSON string,
/// in place of the placeholder that its template must hold, and that string
/// reads back as exactly the selected text.
pub proof fn lemma_context_carries_selection(
    read: TemplateRead,
    filename: Seq<char>,
    fallback: Seq<char>,
    selected_text: Seq<char>,
)
    requires
        runtime_context_text(read, filename, fallback, selected_text) is Ok,
    ensures
        loaded_template(read, filename, fallback) is Ok,
        contains(loaded_template(read, filename, fallback)->Ok_0, SELECTED_TEXT_PLACEHOLDER@),
        contains(
            runtime_context_text(read, filename, fallback, selected_text)->Ok_0,
            json_string(selected_text),
        ),
        json_unescaped(json_escaped(selected_text)) == Some(selected_text),
{
    lemma_json_string_reads_back(selected_text);
    reveal_strlit("{{selected_text_json}}");
    crate::text::lemma_replace_contains(
        loaded_template(read, filename, fallback)->Ok_0,
        SELECTED_TEXT_PLACEHOLDER@,
        json_string(selected_text),
    );
}

/// A system prompt rendered from a template that holds the profile
/// placeholder carries the learner-profile text.
pub proof fn lemma_system_prompt_carries_profile(read: TemplateRead, learner_profile: Option<Seq<char>>)
    requires
        loaded_template(read, "system.md"@, SYSTEM_TEMPLATE@) is Ok,
        contains(loaded_template(read, "system.md"@, SYSTEM_TEMPLATE@)->Ok_0, PROFILE_PLACEHOLDER@),
    ensures
        system_prompt(read, learner_profile) is Ok,
        contains(system_prompt(read, learner_profile)->Ok_0, profile_text(learner_profile)),
{
    reveal_strlit("{{learner_profile}}");
    crate::text::lemma_replace_contains(
        loaded_template(read, "system.md"@, SYSTEM_TEMPLATE@)->Ok_0,
        PROFILE_PLACEHOLDER@,
        profile_text(learner_profile),
    );
}

} // verus!
