use crawler_template::binder::{
    bind_list, bind_optional, bind_optional_list, bind_scalar, CrawlerData,
};
use crawler_template::vars::VarStore;
use crawler_template::CrawlerParseError;

#[derive(Debug, PartialEq, Clone)]
struct IntegrationTestData {
    required_field: String,
    optional_field: Option<i32>,
    vec_field: Vec<u8>,
    option_vec_field: Option<Vec<String>>,
}

impl CrawlerData for IntegrationTestData {
    type Error = CrawlerParseError;

    fn parse(map: &VarStore) -> Result<Self, Self::Error> {
        let required_field = bind_scalar(map, "required_field")?;
        let optional_field = match bind_optional(map, "optional_field")? {
            Some(s) => Some(s.parse::<i32>().map_err(|_| {
                CrawlerParseError::ConversionFailed("optional_field".to_string())
            })?),
            None => None,
        };
        let vec_field = bind_list(map, "vec_field")
            .iter()
            .map(|s| s.parse::<u8>())
            .collect::<Result<Vec<_>, _>>()
            .map_err(|_| CrawlerParseError::ConversionFailed("vec_field".to_string()))?;
        let option_vec_field = bind_optional_list(map, "option_vec_field");
        Ok(IntegrationTestData { required_field, optional_field, vec_field, option_vec_field })
    }
}

#[test]
fn test_crawler_derive_in_integration() {
    let mut map = VarStore::new();
    map.set("required_field", vec!["hello".to_string()]);
    map.set("optional_field", vec!["-10".to_string()]);
    map.set("vec_field", vec!["1".to_string(), "255".to_string()]);

    let expected = IntegrationTestData {
        required_field: "hello".to_string(),
        optional_field: Some(-10),
        vec_field: vec![1, 255],
        option_vec_field: None,
    };

    let parsed = IntegrationTestData::parse(&map).expect("integration parse failed");
    assert_eq!(parsed, expected);

    let mut map_empty_opt_vec = VarStore::new();
    map_empty_opt_vec.set("required_field", vec!["empty_test".to_string()]);
    map_empty_opt_vec.set("option_vec_field", vec![]);

    let expected_empty_opt_vec = IntegrationTestData {
        required_field: "empty_test".to_string(),
        optional_field: None,
        vec_field: vec![],
        option_vec_field: None,
    };
    let parsed_empty_opt_vec =
        IntegrationTestData::parse(&map_empty_opt_vec).expect("empty optional list parse failed");
    assert_eq!(parsed_empty_opt_vec, expected_empty_opt_vec);

    let mut map_present_opt_vec = VarStore::new();
    map_present_opt_vec.set("required_field", vec!["present_test".to_string()]);
    map_present_opt_vec.set("option_vec_field", vec!["a".to_string(), "b".to_string()]);

    let expected_present_opt_vec = IntegrationTestData {
        required_field: "present_test".to_string(),
        optional_field: None,
        vec_field: vec![],
        option_vec_field: Some(vec!["a".to_string(), "b".to_string()]),
    };
    let parsed_present_opt_vec =
        IntegrationTestData::parse(&map_present_opt_vec).expect("present optional list failed");
    assert_eq!(parsed_present_opt_vec, expected_present_opt_vec);
}

#[test]
fn test_missing_required_field() {
    let map = VarStore::new();
    let result = IntegrationTestData::parse(&map);
    assert!(
        matches!(result, Err(CrawlerParseError::MissingField(field)) if field == "required_field")
    );
}

#[test]
fn test_conversion_error() {
    let mut map = VarStore::new();
    map.set("required_field", vec!["hello".to_string()]);
    map.set("optional_field", vec!["not a number".to_string()]);
    let result = IntegrationTestData::parse(&map);
    assert!(
        matches!(result, Err(CrawlerParseError::ConversionFailed(field)) if field == "optional_field")
    );
}

#[test]
fn test_scalar_value_count() {
    let mut map = VarStore::new();
    map.set("name", vec!["a".to_string(), "b".to_string()]);
    let result = bind_scalar(&map, "name");
    assert!(
        matches!(result, Err(CrawlerParseError::InvalidValueCount(field, n)) if field == "name" && n == 2)
    );
    let result2 = bind_optional(&map, "name");
    assert!(matches!(result2, Err(CrawlerParseError::InvalidValueCount(_, 2))));
}
