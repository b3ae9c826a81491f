use sorterylib::errors::SortError;
use sorterylib::structs::ConfigData;
use sorterylib::structs::File;
use sorterylib::structs::Join;
use sorterylib::Sorter;

/// The JSON configuration payload used for testing.
fn template_json() -> String {
    String::from(
        "{\n\
         \"date_format\": \"%Y-%m-%d %Hh%Mm%Ss\",\n\
         \"date_type\": \"m\",\n\
         \"exclude_type\": [\"png\"],\n\
         \"only_type\": [\"json\", \"py\"],\n\
         \"preserve_name\": false\n\
         }",
    )
}

#[test]
fn test_configdata() {
    // Create the ConfigData instance and test its fields
    let json_string = template_json();
    let config_data = ConfigData::from_json(&json_string).expect("Failed to parse json.");
    assert_eq!(config_data.date_format, String::from("%Y-%m-%d %Hh%Mm%Ss"));
    assert_eq!(config_data.date_type, String::from("m"));
    assert_eq!(config_data.exclude_type.len(), 1);
    assert_eq!(config_data.exclude_type[0], String::from("png"));
    assert_eq!(config_data.only_type.len(), 2);
    assert_eq!(config_data.only_type[0], String::from("json"));
    assert_eq!(config_data.only_type[1], String::from("py"));
    assert_eq!(config_data.preserve_name, false);
}

#[test]
fn test_sorter() {
    // The paths to use for testing
    let source = File::new("testing");
    let target = source.join("target");

    // Get the JSON configuration string
    let json_string = template_json();

    // Create a Sorter instance for testing
    let sorter1 = Sorter {
        source: source.copy(),
        target: target.copy(),
        date_format: String::from("%Y-%m-%d %Hh%Mm%Ss"),
        date_type: String::from("m"),
        preserve_name: false,
        exclude_type: vec![String::from("png")],
        only_type: vec![String::from("json"), String::from("py")],
    };

    // Create a Sorter instance from the json string for testing
    let sorter2 = Sorter::from_json(json_string, source.copy(), target.copy())
        .expect("Failed to parse json.");

    // Compare the two Sorter instances to make sure that the JSON was parsed
    // correctly, and that the values match up.
    assert_eq!(sorter1, sorter2);

    // A planning pass over an empty tree plans nothing.
    let plan = sorter1.plan(&Vec::new()).expect("Planning failed.");
    assert_eq!(plan.total_eligible, 0);
    assert_eq!(plan.sources.len(), 0);
    assert_eq!(plan.destinations.len(), 0);
}

#[test]
fn test_config_parse_error_on_malformed_json() {
    let r = ConfigData::from_json(&String::from("this is not json"));
    assert!(matches!(r, Err(SortError::ConfigParseError)));
}

#[test]
fn test_config_parse_error_on_missing_field() {
    let r = ConfigData::from_json(&String::from("{\"date_format\": \"%Y\"}"));
    assert!(matches!(r, Err(SortError::ConfigParseError)));
}

#[test]
fn test_config_parse_error_on_wrong_type() {
    let r = ConfigData::from_json(&String::from(
        "{\"date_format\": \"%Y\", \"date_type\": \"m\", \"exclude_type\": [1], \
         \"only_type\": [], \"preserve_name\": false}",
    ));
    assert!(matches!(r, Err(SortError::ConfigParseError)));
}

#[test]
fn test_config_parse_error_on_unknown_date_type() {
    // Only "a", "c" and "m" are admitted as date types.
    let r = ConfigData::from_json(&String::from(
        "{\"date_format\": \"%Y\", \"date_type\": \"x\", \"exclude_type\": [], \
         \"only_type\": [], \"preserve_name\": true}",
    ));
    assert!(matches!(r, Err(SortError::ConfigParseError)));
}

#[test]
fn test_from_json_error_propagates() {
    let r = Sorter::from_json(String::from("["), File::new("s"), File::new("t"));
    assert!(matches!(r, Err(SortError::ConfigParseError)));
}
