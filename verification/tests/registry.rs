use command_dispatch::handlers::Builtin;
use command_dispatch::registry::{Command, RegistrationError, Registry};

fn sample() -> Registry<Builtin> {
    let mut registry = Registry::new();
    registry.add_group("General", "general", "General commands").unwrap();
    registry.add_group("Meta", "meta", "About the bot").unwrap();
    registry
        .register("General", Command::new("say", "Meows like a cat", Builtin::Say).with_alias("meow"))
        .unwrap();
    registry.register("General", Command::new("repeat", "Sends any text", Builtin::Repeat)).unwrap();
    registry
        .register("Meta", Command::new("help", "Shows this help", Builtin::Help).with_alias("h").with_alias("?"))
        .unwrap();
    registry
}

#[test]
fn new_registry_is_empty() {
    let registry: Registry<Builtin> = Registry::new();
    assert!(registry.groups().is_empty());
    assert!(registry.lookup("say").is_none());
    assert!(registry.group("General").is_none());
}

#[test]
fn command_builder_keeps_the_order_of_aliases() {
    let command = Command::new("help", "Shows this help", Builtin::Help).with_alias("h").with_alias("?");
    assert_eq!(command.name, "help");
    assert_eq!(command.aliases, vec!["h", "?"]);
    assert_eq!(command.description, "Shows this help");
    assert_eq!(command.handler, Builtin::Help);
}

#[test]
fn groups_keep_the_order_of_registration() {
    let registry = sample();
    let groups = registry.groups();
    assert_eq!(groups.len(), 2);
    assert_eq!(groups[0].name, "General");
    assert_eq!(groups[0].summary, "general");
    assert_eq!(groups[0].description, "General commands");
    assert_eq!(groups[1].name, "Meta");
    let names: Vec<&str> = groups[0].commands.iter().map(|c| c.name.as_str()).collect();
    assert_eq!(names, vec!["say", "repeat"]);
    let names: Vec<&str> = groups[1].commands.iter().map(|c| c.name.as_str()).collect();
    assert_eq!(names, vec!["help"]);
}

#[test]
fn lookup_finds_by_name_and_by_alias() {
    let registry = sample();
    assert_eq!(registry.lookup("say").unwrap().handler, Builtin::Say);
    assert_eq!(registry.lookup("meow").unwrap().name, "say");
    assert_eq!(registry.lookup("repeat").unwrap().handler, Builtin::Repeat);
    assert_eq!(registry.lookup("?").unwrap().name, "help");
    assert_eq!(registry.lookup("h").unwrap().description, "Shows this help");
}

#[test]
fn lookup_is_exact_and_case_sensitive() {
    let registry = sample();
    assert!(registry.lookup("Say").is_none());
    assert!(registry.lookup("sa").is_none());
    assert!(registry.lookup("say ").is_none());
    assert!(registry.lookup("bogus").is_none());
    assert!(registry.lookup("General").is_none());
}

#[test]
fn lookup_of_the_empty_name_misses() {
    assert!(sample().lookup("").is_none());
}

#[test]
fn group_finds_a_group_by_name() {
    let registry = sample();
    assert_eq!(registry.group("Meta").unwrap().commands.len(), 1);
    assert!(registry.group("meta").is_none());
    assert!(registry.group("say").is_none());
}

#[test]
fn duplicate_name_is_refused_and_changes_nothing() {
    let mut registry = sample();
    let before = registry.groups().clone();
    let again = registry.register("Meta", Command::new("say", "Another", Builtin::Repeat));
    assert_eq!(again, Err(RegistrationError::DuplicateName));
    assert_eq!(registry.groups(), &before);
    assert_eq!(registry.lookup("say").unwrap().description, "Meows like a cat");
}

#[test]
fn name_equal_to_an_alias_is_refused() {
    let mut registry = sample();
    let before = registry.groups().clone();
    let again = registry.register("General", Command::new("meow", "Another", Builtin::Repeat));
    assert_eq!(again, Err(RegistrationError::DuplicateName));
    assert_eq!(registry.groups(), &before);
}

#[test]
fn alias_equal_to_a_name_is_refused() {
    let mut registry = sample();
    let before = registry.groups().clone();
    let command = Command::new("echo", "Another", Builtin::Repeat).with_alias("e").with_alias("repeat");
    assert_eq!(registry.register("General", command), Err(RegistrationError::DuplicateName));
    assert_eq!(registry.groups(), &before);
    assert!(registry.lookup("echo").is_none());
    assert!(registry.lookup("e").is_none());
}

#[test]
fn command_that_repeats_its_own_name_is_refused() {
    let mut registry = sample();
    let command = Command::new("echo", "Another", Builtin::Repeat).with_alias("echo");
    assert_eq!(registry.register("General", command), Err(RegistrationError::DuplicateName));
    let command = Command::new("echo", "Another", Builtin::Repeat).with_alias("e").with_alias("e");
    assert_eq!(registry.register("General", command), Err(RegistrationError::DuplicateName));
    assert!(registry.lookup("echo").is_none());
    assert!(registry.lookup("e").is_none());
}

#[test]
fn taken_name_is_reported_before_an_unknown_group() {
    let mut registry = sample();
    let again = registry.register("Nowhere", Command::new("say", "Another", Builtin::Repeat));
    assert_eq!(again, Err(RegistrationError::DuplicateName));
}

#[test]
fn unknown_group_is_refused() {
    let mut registry = sample();
    let before = registry.groups().clone();
    let result = registry.register("Nowhere", Command::new("echo", "Another", Builtin::Repeat));
    assert_eq!(result, Err(RegistrationError::UnknownGroup));
    assert_eq!(registry.groups(), &before);
    assert!(registry.lookup("echo").is_none());
}

#[test]
fn empty_name_is_refused() {
    let mut registry = sample();
    let before = registry.groups().clone();
    let result = registry.register("General", Command::new("", "Nameless", Builtin::Repeat));
    assert_eq!(result, Err(RegistrationError::EmptyName));
    let command = Command::new("echo", "Another", Builtin::Repeat).with_alias("");
    assert_eq!(registry.register("General", command), Err(RegistrationError::EmptyName));
    assert_eq!(registry.groups(), &before);
    assert!(registry.lookup("").is_none());
    assert!(registry.lookup("echo").is_none());
}

#[test]
fn duplicate_group_is_refused_and_changes_nothing() {
    let mut registry = sample();
    let before = registry.groups().clone();
    let result = registry.add_group("General", "other", "Other");
    assert_eq!(result, Err(RegistrationError::DuplicateGroup));
    assert_eq!(registry.groups(), &before);
}

#[test]
fn names_are_pairwise_distinct() {
    let registry = sample();
    let mut names: Vec<String> = Vec::new();
    for group in registry.groups() {
        for command in &group.commands {
            names.push(command.name.clone());
            names.extend(command.aliases.iter().cloned());
        }
    }
    assert_eq!(names, vec!["say", "meow", "repeat", "help", "h", "?"]);
    for i in 0..names.len() {
        for j in 0..i {
            assert_ne!(names[i], names[j]);
        }
    }
}

#[test]
fn register_appends_to_the_named_group() {
    let mut registry = sample();
    registry.register("General", Command::new("echo", "Echoes", Builtin::Repeat)).unwrap();
    let names: Vec<&str> = registry.groups()[0].commands.iter().map(|c| c.name.as_str()).collect();
    assert_eq!(names, vec!["say", "repeat", "echo"]);
    assert_eq!(registry.groups()[1].commands.len(), 1);
    assert_eq!(registry.lookup("echo").unwrap().description, "Echoes");
}

#[test]
fn has_empty_name_and_has_repeated_name() {
    assert!(Command::new("", "x", Builtin::Say).has_empty_name());
    assert!(Command::new("a", "x", Builtin::Say).with_alias("").has_empty_name());
    assert!(!Command::new("a", "", Builtin::Say).with_alias("b").has_empty_name());
    assert!(Command::new("a", "x", Builtin::Say).with_alias("a").has_repeated_name());
    assert!(Command::new("a", "x", Builtin::Say).with_alias("b").with_alias("b").has_repeated_name());
    assert!(!Command::new("a", "x", Builtin::Say).with_alias("b").with_alias("c").has_repeated_name());
}

#[test]
fn is_taken_tells_whether_a_name_is_registered() {
    let registry = sample();
    assert!(registry.is_taken(&Command::new("say", "x", Builtin::Say)));
    assert!(registry.is_taken(&Command::new("echo", "x", Builtin::Say).with_alias("h")));
    assert!(!registry.is_taken(&Command::new("echo", "x", Builtin::Say).with_alias("e")));
}
