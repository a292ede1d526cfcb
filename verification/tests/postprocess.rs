use martin::postprocess::{capitalize_sentences, collapse_whitespace, fix_punctuation_spacing, normalize};

#[test]
fn collapse_whitespace_squashes_inline_runs() {
    assert_eq!(collapse_whitespace("a    b   c"), "a b c");
}

#[test]
fn collapse_whitespace_preserves_newlines() {
    assert_eq!(collapse_whitespace("a\n\nb"), "a\n\nb");
    assert_eq!(collapse_whitespace("a  \n\n  b"), "a\n\n b");
}

#[test]
fn collapse_whitespace_trims_trailing_spaces_per_line() {
    assert_eq!(collapse_whitespace("hello   \nworld   "), "hello\nworld");
}

#[test]
fn fix_punctuation_inserts_space_when_glued_to_letter() {
    assert_eq!(fix_punctuation_spacing("texto,palavra"), "texto, palavra");
    assert_eq!(fix_punctuation_spacing("oi.tudo bem"), "oi. tudo bem");
    assert_eq!(fix_punctuation_spacing("a!b?c"), "a! b? c");
}

#[test]
fn fix_punctuation_leaves_existing_spaces_alone() {
    assert_eq!(fix_punctuation_spacing("texto, palavra"), "texto, palavra");
    assert_eq!(fix_punctuation_spacing("fim."), "fim.");
}

#[test]
fn capitalize_first_letter_of_text() {
    assert_eq!(capitalize_sentences("olá mundo"), "Olá mundo");
}

#[test]
fn capitalize_after_period_and_space() {
    assert_eq!(
        capitalize_sentences("primeiro. segundo. terceiro."),
        "Primeiro. Segundo. Terceiro."
    );
}

#[test]
fn capitalize_after_paragraph_break() {
    assert_eq!(
        capitalize_sentences("primeiro paragrafo.\n\nsegundo paragrafo."),
        "Primeiro paragrafo.\n\nSegundo paragrafo."
    );
}

#[test]
fn capitalize_leaves_already_uppercase_intact() {
    assert_eq!(capitalize_sentences("Olá. Tudo bem?"), "Olá. Tudo bem?");
}

#[test]
fn normalize_runs_all_passes() {
    let input = "olá   mundo,como vai?tudo bem.   obrigado";
    let expected = "Olá mundo, como vai? Tudo bem. Obrigado";
    assert_eq!(normalize(input), expected);
}

#[test]
fn normalize_preserves_paragraph_breaks() {
    let input = "primeiro paragrafo.\n\nsegundo paragrafo";
    let expected = "Primeiro paragrafo.\n\nSegundo paragrafo";
    assert_eq!(normalize(input), expected);
}

#[test]
fn normalize_is_idempotent() {
    let input = "Olá mundo. Tudo bem?\n\nNovo paragrafo.";
    assert_eq!(normalize(input), normalize(&normalize(input)));
}

// Further cases.

#[test]
fn collapse_whitespace_turns_tabs_into_one_space() {
    assert_eq!(collapse_whitespace("a\t\t b\tc"), "a b c");
}

#[test]
fn collapse_whitespace_keeps_final_line_endings_and_drops_carriage_returns() {
    assert_eq!(collapse_whitespace("a\r\nb\n"), "a\nb\n");
    assert_eq!(collapse_whitespace("a\n\n"), "a\n\n");
    assert_eq!(collapse_whitespace("\n"), "\n");
    assert_eq!(collapse_whitespace(""), "");
}

#[test]
fn collapse_whitespace_trims_unicode_white_space_at_line_end() {
    assert_eq!(collapse_whitespace("fim\u{a0} \u{2003}"), "fim");
}

#[test]
fn fix_punctuation_does_not_space_before_punctuation_or_at_end() {
    assert_eq!(fix_punctuation_spacing("a.,b"), "a., b");
    assert_eq!(fix_punctuation_spacing("fim!"), "fim!");
    assert_eq!(fix_punctuation_spacing("3.14"), "3. 14");
}

#[test]
fn fix_punctuation_spacing_applied_twice_changes_nothing_more() {
    let once = fix_punctuation_spacing("um,dois.tres;quatro:cinco!seis?sete");
    assert_eq!(once, "um, dois. tres; quatro: cinco! seis? sete");
    assert_eq!(fix_punctuation_spacing(&once), once);
}

#[test]
fn capitalize_waits_past_white_space_and_stops_at_other_characters() {
    assert_eq!(capitalize_sentences("a.  b"), "A.  B");
    assert_eq!(capitalize_sentences("\"quoted\" text"), "\"quoted\" text");
    assert_eq!(capitalize_sentences("linha\nnova"), "Linha\nnova");
}

#[test]
fn capitalize_needs_white_space_after_the_sentence_end() {
    assert_eq!(capitalize_sentences("e.g. this"), "E.g. This");
    assert_eq!(capitalize_sentences("fim.agora"), "Fim.agora");
    assert_eq!(capitalize_sentences("fim.\nagora"), "Fim.\nAgora");
}

#[test]
fn capitalize_single_line_feed_is_no_sentence_boundary() {
    assert_eq!(capitalize_sentences("linha um\nlinha dois"), "Linha um\nlinha dois");
    assert_eq!(capitalize_sentences("linha um\n\nlinha dois"), "Linha um\n\nLinha dois");
    assert_eq!(capitalize_sentences("um\n \ndois"), "Um\n \ndois");
}

#[test]
fn capitalize_uses_full_unicode_uppercase_mapping() {
    assert_eq!(capitalize_sentences("ßtraße"), "SStraße");
    assert_eq!(capitalize_sentences("élan. ñu"), "Élan. Ñu");
}

#[test]
fn normalize_keeps_a_trailing_empty_line() {
    assert_eq!(normalize("a\n\n"), "A\n\n");
    assert_eq!(normalize("A\n\n"), "A\n\n");
}

#[test]
fn collapse_whitespace_applied_twice_changes_nothing_more() {
    let once = collapse_whitespace("  a \t b  \r\n\n c\td   \n x");
    assert_eq!(once, " a b\n\n c d\n x");
    assert_eq!(collapse_whitespace(&once), once);
}

#[test]
fn collapse_whitespace_keeps_every_line_feed() {
    let input = "a\n \n\t\n";
    let once = collapse_whitespace(input);
    assert_eq!(once, "a\n\n\n");
    assert_eq!(once.matches('\n').count(), input.matches('\n').count());
    assert_eq!(collapse_whitespace(&once), once);
}

#[test]
fn normalize_applied_twice_changes_nothing_more() {
    let input = "ola   mundo,como vai?tudo bem.\n\n  fim  \n\tnova linha.e.g. isto ";
    let once = normalize(input);
    assert_eq!(once, "Ola mundo, como vai? Tudo bem.\n\n Fim\n nova linha. E. G. Isto");
    assert_eq!(normalize(&once), once);
}

#[test]
fn normalize_is_idempotent_with_non_ascii_letters_inside_sentences() {
    let input = "olá   mundo,ação rápida.não? \n\ne isso";
    let once = normalize(input);
    assert_eq!(once, "Olá mundo, ação rápida. Não?\n\nE isso");
    assert_eq!(normalize(&once), once);
}
