use biocomputation_ga::dataitem::{DataItem, DataItemParseError};
use biocomputation_ga::dataset::{DataSet, DataSetError, DataSetParseError};
use biocomputation_ga::ga_spec::{InitialGenerationComponentSpec,
    InitialGenerationComponentSpecParseError};

#[test]
fn test_push_and_len() {
    let mut set = DataSet::new();
    assert_eq!(set.len(), 0);
    assert_eq!(set.width(), None);
    set.push(DataItem::parse("00000 0").unwrap()).unwrap();
    set.push(DataItem::parse("11111 1").unwrap()).unwrap();
    assert_eq!(set.len(), 2);
    assert_eq!(set.width(), Some(5));
}

#[test]
fn test_push_length_mismatch() {
    let mut set = DataSet::new();
    set.push(DataItem::parse("00000 0").unwrap()).unwrap();
    assert_eq!(
        set.push(DataItem::parse("010101 1").unwrap()).unwrap_err(),
        DataSetError::LengthMismatch
    );
    assert_eq!(set.len(), 1);
}

#[test]
fn test_split_at_percentage() {
    let mut set = DataSet::new();
    set.push(DataItem::parse("00000 0").unwrap()).unwrap();
    set.push(DataItem::parse("00001 0").unwrap()).unwrap();
    set.push(DataItem::parse("00010 0").unwrap()).unwrap();
    set.push(DataItem::parse("00011 0").unwrap()).unwrap();
    let (training, test) = set.split_at_percentage(50).unwrap();
    assert_eq!(training.len(), 2);
    assert_eq!(test.len(), 2);
    assert_eq!(training.get(0).as_str(), "00000");
    assert_eq!(test.get(0).as_str(), "00010");
}

#[test]
fn test_split_rounds_down() {
    let mut set = DataSet::new();
    set.push(DataItem::parse("00000 0").unwrap()).unwrap();
    set.push(DataItem::parse("00001 0").unwrap()).unwrap();
    set.push(DataItem::parse("00010 0").unwrap()).unwrap();
    let (training, test) = set.split_at_percentage(50).unwrap();
    assert_eq!(training.len(), 1);
    assert_eq!(test.len(), 2);
}

#[test]
fn test_split_invalid_percentage() {
    let set = DataSet::new();
    assert_eq!(
        set.split_at_percentage(101).unwrap_err(),
        DataSetError::InvalidPercentage
    );
}

#[test]
fn test_from_lines_skips_header() {
    let lines = vec![
        "4 rows x 5 variables".to_owned(),
        "00000 0".to_owned(),
        "11111 1".to_owned(),
    ];
    let set = DataSet::from_lines(&lines).unwrap();
    assert_eq!(set.len(), 2);
    assert_eq!(set.get(1).as_str(), "11111");
}

#[test]
fn test_from_lines_names_bad_line() {
    let lines = vec![
        "header".to_owned(),
        "00000 0".to_owned(),
        "garbage".to_owned(),
    ];
    assert_eq!(
        DataSet::from_lines(&lines).unwrap_err(),
        DataSetParseError::DataItemParseError {
            line_number: 2,
            source: DataItemParseError::InvalidFormat,
        }
    );
}

#[test]
fn test_from_lines_names_mismatched_line() {
    let lines = vec![
        "header".to_owned(),
        "00000 0".to_owned(),
        "010101 1".to_owned(),
    ];
    assert_eq!(
        DataSet::from_lines(&lines).unwrap_err(),
        DataSetParseError::DataSetError {
            line_number: 2,
            source: DataSetError::LengthMismatch,
        }
    );
}

#[test]
fn test_component_spec_validation() {
    assert!(InitialGenerationComponentSpec::new(1, 3, 5).is_ok());
    assert_eq!(
        InitialGenerationComponentSpec::new(0, 0, 5).unwrap_err(),
        InitialGenerationComponentSpecParseError::MaxAndMinAreZero
    );
    assert_eq!(
        InitialGenerationComponentSpec::new(3, 3, 5).unwrap_err(),
        InitialGenerationComponentSpecParseError::MaxIsLessThanMin
    );
    assert_eq!(
        InitialGenerationComponentSpec::new(4, 2, 5).unwrap_err(),
        InitialGenerationComponentSpecParseError::MaxIsLessThanMin
    );
}
