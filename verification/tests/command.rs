use frona_server::command::{
    register_all, BuiltinCommand, ClearCommand, Command, CommandManifest, CommandOutcome,
    CommandRegistry, CompactCommand, SwitchAgentCommand, TitleCommand,
};

#[test]
fn builtin_command_names() {
    assert_eq!(ClearCommand.name(), "clear");
    assert_eq!(CompactCommand.name(), "compact");
    assert_eq!(TitleCommand.name(), "title");
    assert_eq!(SwitchAgentCommand.name(), "agent");
    assert_eq!(TitleCommand.argument_hint(), Some("[new title]"));
    assert_eq!(ClearCommand.argument_hint(), None);
}

#[test]
fn command_manifest_copies_fields() {
    let m = CommandManifest::new("title", "Set the title.", Some("[t]"));
    assert_eq!(m.name, "title");
    assert_eq!(m.argument_hint.as_deref(), Some("[t]"));
}

#[test]
fn clear_ends_the_turn() {
    assert_eq!(ClearCommand.outcome(), CommandOutcome::End);
}

#[test]
fn title_reads_trimmed_arguments() {
    assert_eq!(TitleCommand.requested_title("  New name "), Some("New name".to_string()));
    assert_eq!(TitleCommand.requested_title("   "), None);
    assert_eq!(
        TitleCommand.renamed("New name"),
        CommandOutcome::Message("Renamed to 'New name'.".into())
    );
}

#[test]
fn switch_agent_passes_the_prompt_on() {
    assert_eq!(
        SwitchAgentCommand.outcome("do it"),
        CommandOutcome::Prompt("do it".into())
    );
}

#[test]
fn registering_a_name_again_replaces_the_prior_handler() {
    let mut r = CommandRegistry::new();
    r.register(BuiltinCommand::Title);
    r.register(BuiltinCommand::Clear);
    r.register(BuiltinCommand::Title);
    assert_eq!(r.get("title").copied(), Some(BuiltinCommand::Title));
    assert_eq!(r.get("clear").copied(), Some(BuiltinCommand::Clear));
    assert!(r.get("compact").is_none());
    assert_eq!(r.list_static().len(), 2);
}

#[test]
fn list_static_is_in_name_order() {
    let mut r = CommandRegistry::new();
    for c in [BuiltinCommand::Title, BuiltinCommand::SwitchAgent, BuiltinCommand::Compact, BuiltinCommand::Clear] {
        r.register(c);
    }
    let names: Vec<&str> = r.list_static().iter().map(|c| c.name()).collect();
    assert_eq!(names, vec!["agent", "clear", "compact", "title"]);
}

#[test]
fn resolve_falls_back_to_switch_agent_only_for_an_existing_agent() {
    let mut r = CommandRegistry::new();
    register_all(&mut r);
    assert_eq!(r.resolve("clear", false).copied(), Some(BuiltinCommand::Clear));
    assert_eq!(r.resolve("helper", true).copied(), Some(BuiltinCommand::SwitchAgent));
    assert_eq!(r.resolve("helper", false), None);
    assert_eq!(r.get("agent"), None);
    let names: Vec<&str> = r.list_static().iter().map(|c| c.name()).collect();
    assert_eq!(names, vec!["clear", "compact", "title"]);
}

#[test]
fn manifest_from_command_copies_its_fields() {
    let m = CommandManifest::from_command(&BuiltinCommand::Title);
    assert_eq!(m.name, "title");
    assert_eq!(m.description, "Set or regenerate the chat title.");
    assert_eq!(m.argument_hint.as_deref(), Some("[new title]"));
    let m = CommandManifest::from_command(&ClearCommand);
    assert_eq!(m.argument_hint, None);
}
