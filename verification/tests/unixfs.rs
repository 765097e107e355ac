use bitswap_wantlist::unixfs::{Data, Data_DataType, Metadata};

#[test]
fn new_data_has_nothing_set() {
    let data = Data::new();
    assert!(!data.has_Type());
    assert!(!data.has_Data());
    assert!(!data.has_filesize());
    assert!(!data.has_hashType());
    assert!(!data.has_fanout());
    assert_eq!(data.get_Type(), Data_DataType::Raw);
    assert_eq!(data.get_Data(), &[] as &[u8]);
    assert_eq!(data.get_filesize(), 0);
    assert_eq!(data.get_blocksizes(), &[] as &[u64]);
    assert_eq!(data.get_hashType(), 0);
    assert_eq!(data.get_fanout(), 0);
    assert!(!data.is_initialized());
    assert_eq!(data, Data::default());
}

#[test]
fn data_type_is_set_and_cleared() {
    let mut data = Data::new();
    data.set_Type(Data_DataType::File);
    assert!(data.has_Type());
    assert!(data.is_initialized());
    assert_eq!(data.get_Type(), Data_DataType::File);
    data.set_Type(Data_DataType::Raw);
    assert!(data.has_Type());
    data.clear_Type();
    assert!(!data.has_Type());
    assert_eq!(data.get_Type(), Data_DataType::Raw);
}

#[test]
fn data_bytes_are_set_changed_and_taken() {
    let mut data = Data::new();
    data.set_Data(vec![1, 2, 3]);
    assert!(data.has_Data());
    assert_eq!(data.get_Data(), &[1, 2, 3]);
    data.mut_Data().push(4);
    assert_eq!(data.get_Data(), &[1, 2, 3, 4]);
    assert_eq!(data.take_Data(), vec![1, 2, 3, 4]);
    assert!(!data.has_Data());
    assert_eq!(data.take_Data(), Vec::<u8>::new());

    assert!(data.mut_Data().is_empty());
    assert!(data.has_Data());
    data.mut_Data().push(9);
    assert_eq!(data.get_Data(), &[9]);
    data.clear_Data();
    assert!(!data.has_Data());
    assert!(data.get_Data().is_empty());
    assert!(data.mut_Data().is_empty());
}

#[test]
fn data_numbers_are_set_and_cleared() {
    let mut data = Data::new();
    data.set_filesize(10);
    data.set_hashType(0x22);
    data.set_fanout(256);
    assert!(data.has_filesize() && data.has_hashType() && data.has_fanout());
    assert_eq!((data.get_filesize(), data.get_hashType(), data.get_fanout()), (10, 0x22, 256));
    data.set_filesize(0);
    assert!(data.has_filesize());
    data.clear_filesize();
    assert!(!data.has_filesize());
    assert_eq!(data.get_hashType(), 0x22);
    data.clear_hashType();
    data.clear_fanout();
    assert!(!data.has_hashType() && !data.has_fanout());
    assert_eq!((data.get_filesize(), data.get_hashType(), data.get_fanout()), (0, 0, 0));
}

#[test]
fn data_blocksizes_are_set_changed_and_taken() {
    let mut data = Data::new();
    data.set_blocksizes(vec![5, 6]);
    assert_eq!(data.get_blocksizes(), &[5, 6]);
    data.mut_blocksizes().push(7);
    assert_eq!(data.blocksizes, vec![5, 6, 7]);
    assert_eq!(data.take_blocksizes(), vec![5, 6, 7]);
    assert!(data.get_blocksizes().is_empty());
    data.set_blocksizes(vec![1]);
    data.clear_blocksizes();
    assert!(data.get_blocksizes().is_empty());
}

#[test]
fn data_clear_unsets_everything() {
    let mut data = Data::new();
    data.set_Type(Data_DataType::Directory);
    data.set_Data(vec![1]);
    data.set_filesize(1);
    data.set_blocksizes(vec![1]);
    data.set_hashType(1);
    data.set_fanout(1);
    data.clear();
    assert_eq!(data, Data::new());
}

#[test]
fn data_type_numbers() {
    let all = Data_DataType::values();
    assert_eq!(
        all,
        vec![
            Data_DataType::Raw,
            Data_DataType::Directory,
            Data_DataType::File,
            Data_DataType::Metadata,
            Data_DataType::Symlink,
            Data_DataType::HAMTShard
        ]
    );
    for (i, t) in all.iter().enumerate() {
        assert_eq!(t.value(), i as i32);
        assert_eq!(Data_DataType::from_i32(i as i32), Some(*t));
    }
    assert_eq!(Data_DataType::from_i32(6), None);
    assert_eq!(Data_DataType::from_i32(-1), None);
    assert_eq!(Data_DataType::default(), Data_DataType::Raw);
}

#[test]
fn metadata_mime_type_is_set_changed_and_taken() {
    let mut meta = Metadata::new();
    assert!(!meta.has_MimeType());
    assert_eq!(meta.get_MimeType(), "");
    assert!(meta.is_initialized());
    meta.set_MimeType("text/plain".to_string());
    assert!(meta.has_MimeType());
    assert_eq!(meta.get_MimeType(), "text/plain");
    meta.mut_MimeType().push_str("; charset=utf-8");
    assert_eq!(meta.get_MimeType(), "text/plain; charset=utf-8");
    assert_eq!(meta.take_MimeType(), "text/plain; charset=utf-8");
    assert!(!meta.has_MimeType());
    assert_eq!(meta.take_MimeType(), "");
    assert_eq!(meta.mut_MimeType(), "");
    assert!(meta.has_MimeType());
    meta.clear_MimeType();
    assert!(!meta.has_MimeType());
    meta.set_MimeType("a".to_string());
    meta.clear();
    assert_eq!(meta, Metadata::default());
}
