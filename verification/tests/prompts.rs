use gloss::prompts::{
    explain_selection_context, got_it_context, learner_profile, system, translate_context,
    triage_context, TemplateRead, EXPLAIN_SELECTION_TEMPLATE, GOT_IT_TEMPLATE,
    LEARNER_PROFILE_TEMPLATE, SYSTEM_TEMPLATE, TRANSLATE_TEMPLATE, TRIAGE_TEMPLATE,
};

#[test]
fn bundled_templates_separate_soul_from_runtime_context() {
    assert!(SYSTEM_TEMPLATE.contains("{{learner_profile}}"));
    assert!(!SYSTEM_TEMPLATE.contains("{{selected_text_json}}"));
    assert!(TRIAGE_TEMPLATE.contains("{{selected_text_json}}"));
    assert!(TRANSLATE_TEMPLATE.contains("{{selected_text_json}}"));
    assert!(EXPLAIN_SELECTION_TEMPLATE.contains("{{selected_text_json}}"));
    assert!(GOT_IT_TEMPLATE.contains("{{selected_text_json}}"));
}

#[test]
fn system_prompt_receives_the_trimmed_profile() {
    let read = TemplateRead::Contents("Profile:\n{{learner_profile}}\nEnd {{learner_profile}}".to_owned());
    assert_eq!(
        system(read, Some("  level B1  ")).unwrap(),
        "Profile:\nlevel B1\nEnd level B1"
    );
}

#[test]
fn system_prompt_without_profile_says_so() {
    let read = TemplateRead::Contents("[{{learner_profile}}]".to_owned());
    assert_eq!(
        system(read, Some("   ")).unwrap(),
        "[No CEFR learning signals have been recorded yet.]"
    );
    let read = TemplateRead::Contents("[{{learner_profile}}]".to_owned());
    assert_eq!(
        system(read, None).unwrap(),
        "[No CEFR learning signals have been recorded yet.]"
    );
}

#[test]
fn missing_template_falls_back_to_the_bundled_one() {
    let rendered = system(TemplateRead::Missing, Some("B2")).unwrap();
    assert_eq!(rendered, SYSTEM_TEMPLATE.replace("{{learner_profile}}", "B2"));
    assert_eq!(
        learner_profile(TemplateRead::Missing).unwrap(),
        LEARNER_PROFILE_TEMPLATE.trim()
    );
}

#[test]
fn blank_or_unreadable_templates_are_errors() {
    assert_eq!(
        system(TemplateRead::Contents(" \n\t".to_owned()), None).unwrap_err(),
        "The prompt template system.md is empty."
    );
    assert_eq!(
        triage_context(TemplateRead::Failed("access denied".to_owned()), "x").unwrap_err(),
        "Could not read the prompt template triage.md: access denied"
    );
}

#[test]
fn runtime_context_needs_the_placeholder() {
    assert_eq!(
        got_it_context(TemplateRead::Contents("no placeholder".to_owned()), "x").unwrap_err(),
        "The prompt template got-it.md is missing {{selected_text_json}}."
    );
}

#[test]
fn runtime_context_quotes_the_selection_as_json() {
    let read = TemplateRead::Contents("Text: {{selected_text_json}}".to_owned());
    assert_eq!(
        translate_context(read, "say \"hi\"\n").unwrap(),
        "Text: \"say \\\"hi\\\"\\n\""
    );
    let read = TemplateRead::Contents("<{{selected_text_json}}>".to_owned());
    assert_eq!(explain_selection_context(read, "a\u{1}b").unwrap(), "<\"a\\u0001b\">");
    let read = TemplateRead::Contents("{{selected_text_json}}".to_owned());
    assert_eq!(
        explain_selection_context(read, "\\\u{8}\u{c}\r\t\u{1f}\u{7f}é").unwrap(),
        "\"\\\\\\b\\f\\r\\t\\u001f\u{7f}é\""
    );
    let rendered = triage_context(TemplateRead::Missing, "hello").unwrap();
    assert_eq!(rendered, TRIAGE_TEMPLATE.replace("{{selected_text_json}}", "\"hello\""));
}
