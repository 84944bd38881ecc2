use dependency_injector::{LogFormat, LogLevel, LoggingBuilder};

#[test]
fn test_builder_defaults() {
    let builder = LoggingBuilder::default();
    assert_eq!(builder.level, LogLevel::Debug);
    assert_eq!(builder.format, LogFormat::Json);
    assert!(builder.target.is_none());
}

#[test]
fn test_builder_chain() {
    let builder = LoggingBuilder::new().trace().pretty().with_file().with_line_number().di_only();

    assert_eq!(builder.level, LogLevel::Trace);
    assert_eq!(builder.format, LogFormat::Pretty);
    assert!(builder.with_file);
    assert!(builder.with_line_number);
    assert_eq!(builder.target, Some("dependency_injector"));
}

#[test]
fn test_builder_levels_and_formats() {
    assert_eq!(LoggingBuilder::new().info().level, LogLevel::Info);
    assert_eq!(LoggingBuilder::new().warn().level, LogLevel::Warn);
    assert_eq!(LoggingBuilder::new().error().level, LogLevel::Error);
    assert_eq!(LoggingBuilder::new().debug().level, LogLevel::Debug);
    assert_eq!(LoggingBuilder::new().json().format, LogFormat::Json);
    assert_eq!(LoggingBuilder::new().compact().format, LogFormat::Compact);
    assert_eq!(LogFormat::default(), LogFormat::Json);

    let b = dependency_injector::logging::builder()
        .with_level(LogLevel::Warn)
        .with_target_filter("app")
        .with_thread_ids()
        .with_thread_names();
    assert_eq!(b.level, LogLevel::Warn);
    assert_eq!(b.target, Some("app"));
    assert!(b.with_thread_ids);
    assert!(b.with_thread_names);
}
