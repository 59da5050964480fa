use editsync_core::release_channel::{InvalidReleaseChannel, ReleaseChannel};
use editsync_core::syntax::{EditsyncSyntaxToken, VsCodeTokenColor, VsCodeTokenColorSettings, VsCodeTokenScope};
use editsync_core::task::{TaskId, VariableName};
use editsync_core::terminal::DisplayCursor;

#[test]
fn release_channel_names() {
    assert_eq!(ReleaseChannel::Dev.display_name(), "Editsync Dev");
    assert_eq!(ReleaseChannel::Stable.display_name(), "Editsync");
    assert_eq!(ReleaseChannel::Nightly.dev_name(), "nightly");
    assert_eq!(ReleaseChannel::Preview.app_id(), "dev.editsync.Editsync-Preview");
    assert_eq!(ReleaseChannel::Nightly.release_query_param(), Some("nightly=1"));
    assert_eq!(ReleaseChannel::Stable.release_query_param(), None);
    assert!(!ReleaseChannel::Dev.poll_for_updates());
    assert!(ReleaseChannel::Stable.poll_for_updates());
    assert_eq!(ReleaseChannel::default(), ReleaseChannel::Dev);
}

#[test]
fn release_channel_parses_its_own_names() {
    for c in [ReleaseChannel::Dev, ReleaseChannel::Nightly, ReleaseChannel::Preview, ReleaseChannel::Stable] {
        assert_eq!(ReleaseChannel::from_str(c.dev_name()), Ok(c));
    }
    assert_eq!(ReleaseChannel::from_str("beta"), Err(InvalidReleaseChannel));
    assert_eq!(ReleaseChannel::from_str("Dev"), Err(InvalidReleaseChannel));
}

#[test]
fn variable_template_values() {
    assert_eq!(VariableName::File.template_value(), "$EDITSYNC_FILE");
    assert_eq!(VariableName::SelectedText.template_value_with_whitespace(), "\"$EDITSYNC_SELECTED_TEXT\"");
    assert_eq!(VariableName::Custom("my_var".to_string()).name(), "EDITSYNC_CUSTOM_my_var");
}

#[test]
fn variable_names_parse_back() {
    for v in [
        VariableName::File,
        VariableName::RelativeFile,
        VariableName::Filename,
        VariableName::Dirname,
        VariableName::Stem,
        VariableName::WorktreeRoot,
        VariableName::Symbol,
        VariableName::Row,
        VariableName::Column,
        VariableName::SelectedText,
        VariableName::RunnableSymbol,
        VariableName::Custom("x_1".to_string()),
    ] {
        assert_eq!(VariableName::from_str(&v.name()), Ok(v));
    }
    assert_eq!(VariableName::from_str("FILE"), Err(()));
    assert_eq!(VariableName::from_str("EDITSYNC_NOPE"), Err(()));
}

#[test]
fn task_ids_compare_by_text() {
    assert_eq!(TaskId("a".to_string()), TaskId("a".to_string()));
    assert!(TaskId("a".to_string()) < TaskId("b".to_string()));
}

#[test]
fn terminal_cursor_adds_scroll_offset() {
    let c = DisplayCursor::from(-2, 7, 5);
    assert_eq!(c.line(), 3);
    assert_eq!(c.col(), 7);
}

#[test]
fn syntax_token_names_and_fallbacks() {
    assert_eq!(EditsyncSyntaxToken::CommentDoc.name(), "comment.doc");
    assert_eq!(EditsyncSyntaxToken::PunctuationListMarker.name(), "punctuation.list_marker");
    assert_eq!(EditsyncSyntaxToken::CommentDoc.fallbacks(), vec![EditsyncSyntaxToken::Comment]);
    assert_eq!(EditsyncSyntaxToken::StringRegex.fallbacks(), vec![EditsyncSyntaxToken::String]);
    assert!(EditsyncSyntaxToken::Keyword.fallbacks().is_empty());
}

fn rule(scope: Option<VsCodeTokenScope>, foreground: Option<&str>) -> VsCodeTokenColor {
    VsCodeTokenColor {
        name: None,
        scope,
        settings: VsCodeTokenColorSettings { foreground: foreground.map(str::to_string), background: None, font_style: None },
    }
}

#[test]
fn rank_weighs_earlier_scopes_more() {
    let t = EditsyncSyntaxToken::Constant;
    assert_eq!(t.rank_match(&rule(None, Some("#fff"))), None);
    assert_eq!(t.rank_match(&rule(Some(VsCodeTokenScope::One("constant".to_string())), None)), Some(4));
    let many = VsCodeTokenScope::Many(vec!["constant.character".to_string(), "constant.language".to_string()]);
    assert_eq!(t.rank_match(&rule(Some(many), None)), Some(5));
    assert_eq!(t.rank_match(&rule(Some(VsCodeTokenScope::One("string".to_string())), None)), Some(0));
}

#[test]
fn best_rule_is_last_of_the_highest() {
    let t = EditsyncSyntaxToken::Constant;
    let rules = vec![
        rule(Some(VsCodeTokenScope::One("constant".to_string())), Some("#111")),
        rule(Some(VsCodeTokenScope::One("constant".to_string())), None),
        rule(Some(VsCodeTokenScope::One("string".to_string())), Some("#222")),
        rule(Some(VsCodeTokenScope::One("constant".to_string())), Some("#333")),
        rule(Some(VsCodeTokenScope::One("constant.language".to_string())), Some("#444")),
    ];
    let best = t.find_best_token_color_match(&rules).unwrap();
    assert_eq!(best.settings.foreground.as_deref(), Some("#333"));
    let none = vec![rule(Some(VsCodeTokenScope::One("string".to_string())), Some("#222"))];
    assert!(t.find_best_token_color_match(&none).is_none());
}
