use uns_cli::commands::CommandHandler;
use uns_cli::repository::TagRepository;
use uns_cli::service::TagService;
use uns_cli::{
    Cli, CliHandler, CommandFactory, Commands, JsonTagRepository, MemoryMqttClient,
    MqttTagPublisher, RunCommandHandler, Tag, TagMap, TagServiceImpl, UnsError,
    UpdateCommandHandler,
};

struct MockTagService;

impl TagService for MockTagService {
    fn duplicate(&self) -> Self {
        MockTagService
    }

    fn load_and_publish_tags(&mut self, _source: &str) -> Result<(), UnsError> {
        Ok(())
    }

    fn update_and_publish_tag(&mut self, _path: &str, _value: String) -> Result<(), UnsError> {
        Ok(())
    }

    fn get_all_tags(&self) -> Result<TagMap, UnsError> {
        Ok(TagMap::new())
    }

    fn get_tag(&self, _path: &str) -> Result<Option<Tag>, UnsError> {
        Ok(None)
    }
}

#[test]
fn test_run_command() {
    let mut handler = RunCommandHandler::new_test_mode(MockTagService, "test.json".to_string());

    let result = handler.execute();

    assert!(result.is_ok());
}

#[test]
fn test_update_command() {
    let mut handler = UpdateCommandHandler::new(
        MockTagService,
        "US/TX/AUSTIN/AREA1/LINE1/MACHINE1/PUMP1/PRESSURE".to_string(),
        "50.2".to_string(),
    );

    let result = handler.execute();

    assert!(result.is_ok());
}

#[test]
fn test_command_factory() {
    let factory = CommandFactory::new(MockTagService);

    let run_command = factory.create_run_command("test.json".to_string());

    let update_command = factory.create_update_command(
        "US/TX/AUSTIN/AREA1/LINE1/MACHINE1/PUMP1/PRESSURE".to_string(),
        "50.2".to_string(),
    );

    assert_eq!(run_command.tags_source, "test.json");
    assert_eq!(update_command.path, "US/TX/AUSTIN/AREA1/LINE1/MACHINE1/PUMP1/PRESSURE");
    assert_eq!(update_command.value, "50.2");
}

#[test]
fn test_cli_parsing_run() {
    let cli = Cli { command: Commands::Run { tags_source: "test.json".to_string() } };

    match cli.command {
        Commands::Run { tags_source } => {
            assert_eq!(tags_source, "test.json");
        },
        _ => panic!("Expected Run command"),
    }
}

#[test]
fn test_cli_parsing_update() {
    let cli = Cli {
        command: Commands::Update {
            path: "US/TX/AUSTIN/AREA1/LINE1/MACHINE1/PUMP1/PRESSURE".to_string(),
            value: "50.2".to_string(),
        },
    };

    match cli.command {
        Commands::Update { path, value } => {
            assert_eq!(path, "US/TX/AUSTIN/AREA1/LINE1/MACHINE1/PUMP1/PRESSURE");
            assert_eq!(value, "50.2");
        },
        _ => panic!("Expected Update command"),
    }
}

#[test]
fn test_cli_handler_run() {
    let handler = CliHandler::new(MockTagService);

    let mut command = handler.command_factory.create_run_command_test_mode("test.json".to_string());
    let result = command.execute();

    assert!(result.is_ok());
}

#[test]
fn test_cli_handler_update() {
    let handler = CliHandler::new(MockTagService);

    let mut command = handler.command_factory.create_update_command(
        "US/TX/AUSTIN/AREA1/LINE1/MACHINE1/PUMP1/PRESSURE".to_string(),
        "50.2".to_string(),
    );
    let result = command.execute();

    assert!(result.is_ok());
}

#[test]
fn test_cli_handler_run_dispatch() {
    let mut handler = CliHandler::new(MockTagService);

    let result = handler.run(Cli {
        command: Commands::Run { tags_source: "{\"tags\":{}}".to_string() },
    });

    assert!(result.is_ok());
}

#[test]
fn test_cli_handler_keeps_command_effect() {
    let service = TagServiceImpl::new(
        JsonTagRepository::new(),
        MqttTagPublisher::new(MemoryMqttClient::new()),
    );
    let mut handler = CliHandler::new(service);

    let source = r#"{"tags":{"A/B":{"path":"A/B","name":"N","description":"D","value":"1"}}}"#;
    handler.run(Cli { command: Commands::Run { tags_source: source.to_string() } }).unwrap();

    let held = &handler.command_factory.tag_service;
    assert_eq!(held.publisher.client.messages.len(), 2);
    assert_eq!(held.publisher.client.messages[0].topic, "tags/A.B");
    assert_eq!(held.publisher.client.messages[1].topic, "tags/database");

    handler.run(Cli {
        command: Commands::Update { path: "A/B".to_string(), value: "2".to_string() },
    }).unwrap();

    let held = &handler.command_factory.tag_service;
    assert_eq!(held.publisher.client.messages.len(), 4);
    let tag = held.repository.get_tag("A/B").unwrap().unwrap();
    assert_eq!(tag.value, "2");
}
