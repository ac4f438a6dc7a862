use crawler_template::file_txn::{FileIntegrityChecker, FileProcessingTransaction};
use crawler_template::nfo::{Actor, MediaCenterType, MovieNfo, MovieSet, NfoGenerator, NfoGeneratorBuilder};
use crawler_template::organizer::FileOrganizer;
use crawler_template::template_parser::{MultiActorStrategy, TemplateParser};
use crawler_template::runner::TaskStatus;
use crawler_template::translator::TranslationProvider;

#[test]
fn file_organizer_test_sanitize_filename() {
    let organizer = FileOrganizer::new();

    let test_cases = vec![
        ("test<file>name", "testfilename"),
        ("file/with\\slashes", "filewithslashes"),
        ("file:with|illegal*chars?", "filewithillegalchars"),
        ("  multiple   spaces  ", "multiple spaces"),
    ];

    for (input, expected) in test_cases {
        let result = organizer.sanitize_filename(input);
        assert_eq!(result, expected, "Failed for input: {}", input);
    }
}

#[test]
fn test_normalize_identifier() {
    let organizer = FileOrganizer::new();

    let test_cases = vec![
        ("IPX-001", "ipx001"),
        ("PRED_123", "pred123"),
        ("ABC-DEF-456", "abcdef456"),
        ("Test Movie!", "testmovie"),
        ("Movie@123#", "movie123"),
        ("  spaces  ", "spaces"),
    ];

    for (input, expected) in test_cases {
        let result = organizer.normalize_identifier(input);
        assert_eq!(result, expected, "Failed for input: {}", input);
    }
}

#[test]
fn nfo_generator_test_sanitize_filename() {
    let generator = NfoGenerator::new();

    let test_cases = vec![
        ("test<file>name", "testfilename"),
        ("file/with\\slashes", "filewithslashes"),
        ("file:with|illegal*chars?", "filewithillegalchars"),
        ("  multiple   spaces  ", "multiple spaces"),
    ];

    for (input, expected) in test_cases {
        let result = generator.sanitize_filename(input);
        assert_eq!(result, expected, "Failed for input: {}", input);
    }
}

#[test]
fn test_nfo_generator_builder() {
    let generator = NfoGeneratorBuilder::new()
        .for_media_center(MediaCenterType::Universal)
        .generate_multiple_formats(true)
        .build();

    assert_eq!(generator.media_center_type, MediaCenterType::Universal);
}

#[test]
fn test_available_variables() {
    let vars = TemplateParser::get_available_variables();
    assert!(vars.contains(&"title".to_string()));
    assert!(vars.contains(&"actor".to_string()));
    assert!(vars.contains(&"year".to_string()));
    assert!(vars.contains(&"series".to_string()));
}

#[test]
fn test_translation_provider() {
    assert!(matches!(
        "openai".parse().unwrap(),
        TranslationProvider::OpenAI
    ));

    assert!(matches!(
        "ollama".parse().unwrap(),
        TranslationProvider::Ollama
    ));

    if let TranslationProvider::Custom(url) = "http://localhost:8080".parse().unwrap() {
        assert_eq!(url, "http://localhost:8080");
    } else {
        panic!("Custom provider not parsed correctly");
    }
}

fn create_test_nfo() -> MovieNfo {
    let mut nfo = MovieNfo::new();
    nfo.title = "测试电影".to_string();
    nfo.original_title = "Test Movie".to_string();
    nfo.year = Some(2023);
    nfo.studios = vec!["Test Studio".to_string()];

    nfo.set = Some(MovieSet {
        name: "测试系列".to_string(),
        overview: "测试系列简介".to_string(),
    });

    nfo.actors = vec![
        Actor {
            name: "演员A".to_string(),
            role: "主角".to_string(),
            thumb: "".to_string(),
            order: Some(1),
        },
        Actor {
            name: "演员B".to_string(),
            role: "配角".to_string(),
            thumb: "".to_string(),
            order: Some(2),
        },
    ];

    nfo.directors = vec!["导演A".to_string()];
    nfo.genres = vec!["动作".to_string(), "冒险".to_string()];

    nfo
}

#[test]
fn test_template_parser_basic() {
    let mut parser = TemplateParser::new();
    let nfo = create_test_nfo();

    parser.populate_from_nfo(&nfo).unwrap();

    let result = parser
        .parse_template("$series$/$title$ ($year$)", MultiActorStrategy::FirstOnly)
        .unwrap();

    assert_eq!(result.primary_path, "测试系列/测试电影 (2023)");
    assert!(result.additional_paths.is_empty());
}

#[test]
fn test_template_parser_with_actor() {
    let mut parser = TemplateParser::new();
    let nfo = create_test_nfo();

    parser.populate_from_nfo(&nfo).unwrap();

    let result = parser
        .parse_template("$actor$/$title$ ($year$)", MultiActorStrategy::FirstOnly)
        .unwrap();

    assert_eq!(result.primary_path, "演员A/测试电影 (2023)");
    assert!(result.additional_paths.is_empty());
}

#[test]
fn test_template_parser_symlink_strategy() {
    let mut parser = TemplateParser::new();
    let nfo = create_test_nfo();

    parser.populate_from_nfo(&nfo).unwrap();

    let result = parser
        .parse_template("$actor$/$title$ ($year$)", MultiActorStrategy::SymLink)
        .unwrap();

    assert_eq!(result.primary_path, "演员A/测试电影 (2023)");
    assert_eq!(result.additional_paths.len(), 1);
    assert_eq!(result.additional_paths[0], "演员B/测试电影 (2023)");
}

#[test]
fn test_template_parser_merge_strategy() {
    let mut parser = TemplateParser::new();
    let nfo = create_test_nfo();

    parser.populate_from_nfo(&nfo).unwrap();

    let result = parser
        .parse_template("$actor$/$title$ ($year$)", MultiActorStrategy::Merge)
        .unwrap();

    assert_eq!(result.primary_path, "演员A & 演员B/测试电影 (2023)");
    assert!(result.additional_paths.is_empty());
}

#[test]
fn test_multi_actor_strategy_from_string() {
    assert_eq!(MultiActorStrategy::from_string("hardlink"), MultiActorStrategy::HardLink);
    assert_eq!(MultiActorStrategy::from_string("SYMLINK"), MultiActorStrategy::SymLink);
    assert_eq!(MultiActorStrategy::from_string("first"), MultiActorStrategy::FirstOnly);
    assert_eq!(MultiActorStrategy::from_string("first_only"), MultiActorStrategy::FirstOnly);
    assert_eq!(MultiActorStrategy::from_string("merge"), MultiActorStrategy::Merge);
    assert_eq!(MultiActorStrategy::from_string("other"), MultiActorStrategy::SymLink);
}

#[test]
fn test_transaction_collects_operations() {
    let mut txn = FileProcessingTransaction::new("/in/movie.mp4");
    txn.add_nfo_creation("/out/movie.nfo".to_string(), "<movie/>".to_string());
    txn.add_file_move("/in/movie.mp4".to_string(), "/out/movie.mp4".to_string());
    txn.add_directory_creation("/out".to_string());
    assert_eq!(txn.operations.len(), 3);
    assert_eq!(txn.original_path, "/in/movie.mp4");
    assert!(!txn.completed);
}

#[test]
fn test_integrity_checker_decisions() {
    let checker = FileIntegrityChecker::new("/in/movie.mp4", 100, 555);
    assert!(checker.verify_integrity(Some((100, 555))));
    assert!(!checker.verify_integrity(Some((101, 555))));
    assert!(!checker.verify_integrity(Some((100, 556))));
    assert!(!checker.verify_integrity(None));
}

#[test]
fn test_resolve_filename_conflict_picks_free_name() {
    let organizer = FileOrganizer::new();
    let taken = vec!["movie.mp4".to_string(), "movie (1).mp4".to_string()];
    let r = organizer.resolve_filename_conflict("movie", "mp4", &taken);
    assert_eq!(r, Some("movie (2).mp4".to_string()));
    let free = organizer.resolve_filename_conflict("fresh", "mp4", &taken);
    assert_eq!(free, Some("fresh.mp4".to_string()));
}

#[test]
fn test_subtitle_move_plan() {
    let organizer = FileOrganizer::new();
    let exts = vec!["srt".to_string(), "ass".to_string()];
    let plan = organizer.move_subtitle_files("old", "new", &exts);
    assert_eq!(
        plan,
        vec![
            ("old.srt".to_string(), "new.srt".to_string()),
            ("old.ass".to_string(), "new.ass".to_string()),
        ]
    );
}

#[test]
fn test_common_image_naming_rules() {
    let rules = crawler_template::image::common_naming_rules("IPX-001");
    assert_eq!(rules.len(), 5);
    assert_eq!(rules[0].1.filename, "IPX-001.jpg");
    assert_eq!(rules[1].1.filename, "poster.jpg");
}

#[test]
fn test_config_defaults() {
    assert_eq!(crawler_template::config::default_maximum_fetch_count(), 3);
    assert_eq!(
        crawler_template::config::default_file_naming_template(),
        "$series$/$title$ ($year$)"
    );
    assert_eq!(crawler_template::config::default_multi_actor_strategy(), "symlink");
    assert_eq!(
        crawler_template::config::default_subtitle_extensions(),
        vec!["srt", "ass", "ssa", "vtt", "sub", "idx"]
    );
    assert!(crawler_template::config::default_download_images());
    assert!(!crawler_template::config::default_download_preview_images());
}

#[test]
fn test_task_status_from_code() {
    assert_eq!(TaskStatus::from_code(0), TaskStatus::Wait);
    assert_eq!(TaskStatus::from_code(1), TaskStatus::Running);
    assert_eq!(TaskStatus::from_code(2), TaskStatus::Fail);
    assert_eq!(TaskStatus::from_code(3), TaskStatus::Success);
    assert_eq!(TaskStatus::from_code(4), TaskStatus::Pause);
    assert_eq!(TaskStatus::from_code(9), TaskStatus::Wait);
}
