use smokestack::annotations::Annotations;
use smokestack::api::{CreateOperationRequest, UpdateOperationRequest};
use smokestack::cli::{
    importer_took, Action, ComponentCall, ComponentCommand, CreateArgs, Input, ListArgs, Source,
    SourceArgs, SubscribeArgs, TagCall, TagCommand,
};
use smokestack::model::{Operation, OperationState};
use smokestack::render::{render_notice, render_table};

fn names(items: &[&str]) -> Vec<String> {
    items.iter().map(|s| s.to_string()).collect()
}

fn pair(key: &str, value: &str) -> (String, String) {
    (key.to_string(), value.to_string())
}

fn operation(id: u64, status: OperationState, title: &str) -> Operation {
    Operation {
        id,
        title: title.to_string(),
        purpose: "p".to_string(),
        url: "http://example.com".to_string(),
        components: names(&["db"]),
        locks: Vec::new(),
        tags: Vec::new(),
        depends_on: Vec::new(),
        operators: names(&["alice"]),
        status,
        annotations: Annotations::new(),
    }
}

fn source(
    file: Option<Input>,
    importer: Option<&str>,
    template: Option<&str>,
    parameters: &[(&str, &str)],
) -> SourceArgs {
    SourceArgs {
        file,
        importer: importer.map(|s| s.to_string()),
        template: template.map(|s| s.to_string()),
        parameters: parameters.iter().map(|(k, v)| pair(k, v)).collect(),
    }
}

#[test]
fn commands_on_components() {
    let create = ComponentCommand::Create {
        name: "db".to_string(),
        description: "d".to_string(),
        owners: names(&["alice"]),
    };
    match create.call() {
        ComponentCall::Create(request) => {
            assert_eq!(request.name, "db");
            assert_eq!(request.description, "d");
            assert_eq!(request.owners, names(&["alice"]));
        }
        other => panic!("unexpected {:?}", other),
    }
    match (ComponentCommand::Show { name: "db".to_string() }).call() {
        ComponentCall::Show(path) => assert_eq!(path, "components/db"),
        other => panic!("unexpected {:?}", other),
    }
    match ComponentCommand::List.call() {
        ComponentCall::List(path) => assert_eq!(path, "components"),
        other => panic!("unexpected {:?}", other),
    }
}

#[test]
fn commands_on_tags() {
    let create = TagCommand::Create { name: "risky".to_string(), description: "d".to_string() };
    match create.call() {
        TagCall::Create(request) => {
            assert_eq!(request.name, "risky");
            assert_eq!(request.description, "d");
        }
        other => panic!("unexpected {:?}", other),
    }
    match (TagCommand::Show { name: "risky".to_string() }).call() {
        TagCall::Show(path) => assert_eq!(path, "tags/risky"),
        other => panic!("unexpected {:?}", other),
    }
    match TagCommand::List.call() {
        TagCall::List(path) => assert_eq!(path, "tags"),
        other => panic!("unexpected {:?}", other),
    }
}

#[test]
fn the_query_of_a_listing() {
    let args = ListArgs {
        components: names(&["db", "web"]),
        tags: names(&["risky"]),
        statuses: vec![OperationState::InProgress, OperationState::Planned],
        operators: names(&["alice"]),
    };
    assert_eq!(
        args.query(),
        vec![
            pair("component", "db"),
            pair("component", "web"),
            pair("tag", "risky"),
            pair("operator", "alice"),
            pair("status", "in_progress"),
            pair("status", "planned"),
        ]
    );
    let none = ListArgs {
        components: Vec::new(),
        tags: Vec::new(),
        statuses: Vec::new(),
        operators: Vec::new(),
    };
    assert_eq!(none.query(), Vec::<(String, String)>::new());
}

#[test]
fn a_subscription_or_a_listing() {
    let list = SubscribeArgs { list: true, operation: Some(1), component: None, tag: None };
    assert!(list.request().is_none());
    let one = SubscribeArgs {
        list: false,
        operation: None,
        component: Some("db".to_string()),
        tag: None,
    };
    let request = one.request().unwrap();
    assert_eq!(request.operation, None);
    assert_eq!(request.component, Some("db".to_string()));
    assert_eq!(request.tag, None);
    let other = SubscribeArgs { list: false, operation: Some(7), component: None, tag: None };
    assert_eq!(other.request().unwrap().operation, Some(7));
}

#[test]
fn where_a_description_is_read_from() {
    assert!(matches!(Input::parse("-"), Input::Stdin));
    assert!(matches!(Input::parse("plan.yml"), Input::Path(p) if p == "plan.yml"));
    assert!(matches!(Input::parse("--"), Input::Path(p) if p == "--"));
    assert!(matches!(Input::parse(""), Input::Path(p) if p.is_empty()));
}

#[test]
fn nothing_named_gives_a_skeleton_to_edit() {
    let args = CreateArgs { source: source(None, None, None, &[]), edit: false, no_edit: false };
    assert!(args.source.is_consistent());
    let plan = args.plan();
    assert!(matches!(plan.source, Source::Skeleton));
    assert!(plan.edit);
}

#[test]
fn a_file_is_read_and_edited_only_on_request() {
    let args = CreateArgs {
        source: source(Some(Input::Path("plan.yml".to_string())), None, None, &[]),
        edit: false,
        no_edit: false,
    };
    let plan = args.plan();
    assert!(matches!(plan.source, Source::Read(Input::Path(p)) if p == "plan.yml"));
    assert!(!plan.edit);
    let args = CreateArgs {
        source: source(Some(Input::Stdin), None, None, &[]),
        edit: true,
        no_edit: false,
    };
    let plan = args.plan();
    assert!(matches!(plan.source, Source::Read(Input::Stdin)));
    assert!(plan.edit);
}

#[test]
fn a_template_is_edited_unless_asked_not_to() {
    let args = CreateArgs {
        source: source(None, None, Some("upgrade"), &[("env", "prod")]),
        edit: false,
        no_edit: false,
    };
    let plan = args.plan();
    match plan.source {
        Source::Template { template, parameters } => {
            assert_eq!(template, "upgrade");
            assert_eq!(parameters, vec![pair("env", "prod")]);
        }
        other => panic!("unexpected {:?}", other),
    }
    assert!(plan.edit);
    let args = CreateArgs {
        source: source(None, None, Some("upgrade"), &[]),
        edit: false,
        no_edit: true,
    };
    assert!(!args.plan().edit);
}

#[test]
fn importers_are_run_for_an_importer_or_for_parameters() {
    let args = CreateArgs {
        source: source(None, Some("jira"), None, &[("id", "T-1")]),
        edit: false,
        no_edit: false,
    };
    let plan = args.plan();
    match plan.source {
        Source::Import { importer, parameters } => {
            assert_eq!(importer, Some("jira".to_string()));
            assert_eq!(parameters, vec![pair("id", "T-1")]);
        }
        other => panic!("unexpected {:?}", other),
    }
    assert!(!plan.edit);
    let args = CreateArgs {
        source: source(None, None, None, &[("id", "T-1")]),
        edit: true,
        no_edit: false,
    };
    let plan = args.plan();
    assert!(matches!(plan.source, Source::Import { importer: None, .. }));
    assert!(plan.edit);
}

#[test]
fn arguments_that_do_not_go_together() {
    assert!(!source(Some(Input::Stdin), Some("jira"), None, &[]).is_consistent());
    assert!(!source(Some(Input::Stdin), None, Some("t"), &[]).is_consistent());
    assert!(!source(Some(Input::Stdin), None, None, &[("a", "b")]).is_consistent());
    assert!(!source(None, Some("jira"), Some("t"), &[]).is_consistent());
    assert!(source(None, Some("jira"), None, &[("a", "b")]).is_consistent());
    assert!(source(None, None, Some("t"), &[("a", "b")]).is_consistent());
}

#[test]
fn an_importer_that_ends_with_125_has_passed() {
    assert!(!importer_took(Some(125)));
    assert!(importer_took(Some(0)));
    assert!(importer_took(Some(1)));
    assert!(importer_took(None));
}

#[test]
fn the_skeleton_of_a_description() {
    let skeleton = CreateOperationRequest::skeleton("alice");
    assert_eq!(skeleton.title, "");
    assert_eq!(skeleton.purpose, "");
    assert_eq!(skeleton.url, "http://example.com");
    assert!(skeleton.components.is_empty());
    assert!(skeleton.locks.is_empty());
    assert!(skeleton.tags.is_empty());
    assert!(skeleton.depends_on.is_empty());
    assert_eq!(skeleton.operators, names(&["alice"]));
    assert!(skeleton.annotations.entries.is_empty());
}

#[test]
fn the_status_that_a_command_asks_for() {
    for (action, status) in [
        (Action::Start, OperationState::InProgress),
        (Action::Pause, OperationState::Paused),
        (Action::Complete, OperationState::Completed),
        (Action::Abort, OperationState::Aborted),
        (Action::Cancel, OperationState::Canceled),
    ] {
        let request = action.request();
        assert_eq!(request.status, Some(status));
        assert!(request.title.is_none());
        assert!(request.purpose.is_none());
        assert!(request.url.is_none());
        assert!(request.components.is_none());
        assert!(request.locks.is_none());
        assert!(request.tags.is_none());
        assert!(request.depends_on.is_none());
        assert!(request.operators.is_none());
        assert!(request.annotations.entries.is_empty());
    }
}

#[test]
fn the_request_that_names_all_of_an_operation() {
    let mut op = operation(5, OperationState::Paused, "Upgrade");
    op.annotations.set("k".to_string(), "v".to_string());
    let request = UpdateOperationRequest::of(op.clone());
    assert_eq!(request.title, Some("Upgrade".to_string()));
    assert_eq!(request.status, Some(OperationState::Paused));
    assert_eq!(request.components, Some(names(&["db"])));
    assert_eq!(request.apply(op.clone()), op);
    let request = UpdateOperationRequest::of(op.clone());
    let mut other = operation(5, OperationState::Planned, "Old");
    other.annotations.set("j".to_string(), "w".to_string());
    let patched = request.apply(other);
    assert_eq!(patched.title, "Upgrade");
    assert_eq!(patched.status, OperationState::Paused);
    assert_eq!(patched.annotations.get("k"), Some(&"v".to_string()));
    assert_eq!(patched.annotations.get("j"), Some(&"w".to_string()));
}

#[test]
fn a_table_of_operations() {
    let ops = vec![
        operation(7, OperationState::Planned, "Upgrade db"),
        operation(1234, OperationState::InProgress, "Go"),
    ];
    let expected = [
        "  id  status       title     \n",
        "----  -----------  ----------\n",
        "1234  \x1b[36min_progress\x1b[0m  Go\n",
        "   7  \x1b[37mplanned\x1b[0m      Upgrade db\n",
    ]
    .join("");
    assert_eq!(render_table(&ops), expected);
}

#[test]
fn a_table_without_operations() {
    assert_eq!(render_table(&Vec::new()), "id  status  title\n--  ------  -----\n");
}

#[test]
fn a_table_with_wide_characters() {
    let ops = vec![operation(1, OperationState::Paused, "日本語の題")];
    let expected = [
        "id  status  title     \n",
        "--  ------  ----------\n",
        " 1  \x1b[35mpaused\x1b[0m  日本語の題\n",
    ]
    .join("");
    assert_eq!(render_table(&ops), expected);
}

#[test]
fn a_notice_of_an_operation() {
    let op = operation(1234, OperationState::Paused, "Upgrade db");
    assert_eq!(
        render_notice("2024-05-01 10:00:00", &op),
        "2024-05-01 10:00:00       1234  \x1b[35mpaused\x1b[0m       Upgrade db\n"
    );
    let op = operation(1234567890, OperationState::InProgress, "X");
    assert_eq!(
        render_notice("t", &op),
        "t  1234567890  \x1b[36min_progress\x1b[0m  X\n"
    );
}
