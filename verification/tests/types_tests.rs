use openvds::{AxisDescriptor, DataType, Dimension};

#[test]
fn test_data_type_sizes() {
    assert_eq!(DataType::U8.size_in_bytes(), 1);
    assert_eq!(DataType::U16.size_in_bytes(), 2);
    assert_eq!(DataType::F32.size_in_bytes(), 4);
    assert_eq!(DataType::F64.size_in_bytes(), 8);
}

#[test]
fn test_dimension_conversion() {
    assert_eq!(Dimension::from_index(0), Some(Dimension::Dim0));
    assert_eq!(Dimension::from_index(5), Some(Dimension::Dim5));
    assert_eq!(Dimension::from_index(6), None);

    assert_eq!(Dimension::Dim0.to_index(), 0);
    assert_eq!(Dimension::Dim5.to_index(), 5);
}

#[test]
fn test_data_type_kinds() {
    assert!(DataType::F32.is_float());
    assert!(DataType::F64.is_float());
    assert!(!DataType::U32.is_float());
    assert!(DataType::I16.is_integer());
    assert!(DataType::U1.is_integer());
    assert!(!DataType::F64.is_integer());
}

#[test]
fn test_data_type_labels() {
    assert_eq!(DataType::F32.label(), "F32");
    assert_eq!(DataType::U8.label(), "U8");
}

#[test]
fn test_axis_descriptor_fields() {
    let axis = AxisDescriptor::new(101, "Depth", "m");
    assert_eq!(axis.num_samples, 101);
    assert_eq!(axis.name, "Depth");
    assert_eq!(axis.unit, "m");
}
