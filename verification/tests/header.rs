use qoi_stream::error::QoiError;
use qoi_stream::header::QoiHeaderInternal;
use qoi_stream::utils::is_identical;

#[test]
fn infallible_new() {
    let (width, height, channels, colorspace) = (2, 2, 4, 0);
    let header = QoiHeaderInternal::new(width, height, channels, colorspace);
    assert!(is_identical(&header.magic_bytes, &[113, 111, 105, 102]));
    assert!(header.width == 2);
    assert!(header.height == 2);
    assert!(header.channels == 4);
    assert!(header.colorspace == 0);
}

#[test]
fn infallible_to_u8() {
    let input = [113, 111, 105, 102, 0, 0, 0, 2, 0, 0, 0, 4, 4, 0];
    let internal = QoiHeaderInternal::extract(&input);
    assert!(internal.is_ok());
    if let Ok(internal) = internal {
        assert!(is_identical(&internal.magic_bytes, &[113, 111, 105, 102]));
        assert!(internal.width == 2);
        assert!(internal.height == 4);
        assert!(internal.channels == 4);
        assert!(internal.colorspace == 0);
        let header = internal.public();
        assert!(is_identical(
            &header.to_u8(),
            &[113, 111, 105, 102, 0, 0, 0, 2, 0, 0, 0, 4, 4, 0]
        ));
    }
}

#[test]
fn good_extract() {
    let input = [113, 111, 105, 102, 0, 0, 0, 2, 0, 0, 0, 4, 4, 0];
    let header = QoiHeaderInternal::extract(&input);
    assert!(header.is_ok());
    if let Ok(header) = header {
        assert!(is_identical(&header.magic_bytes, &[113, 111, 105, 102]));
        assert!(header.width == 2);
        assert!(header.height == 4);
        assert!(header.channels == 4);
        assert!(header.colorspace == 0);
    }
}

#[test]
fn bad_magic_bytes() {
    let input = [112, 111, 105, 102, 0, 0, 0, 2, 0, 0, 0, 4, 4, 0];
    let header = QoiHeaderInternal::extract(&input);
    assert!(header.is_err());
    if let Err(QoiError::InvalidMagicBytes(q, o, i, f)) = header {
        assert!(q == 112);
        assert!(o == 111);
        assert!(i == 105);
        assert!(f == 102);
    } else {
        panic!("another result");
    }
}

#[test]
fn header_bad_width_height() {
    let input = [113, 111, 105, 102, 0, 0, 0, 0, 0, 0, 0, 0, 4, 0];
    let header = QoiHeaderInternal::extract(&input);
    assert!(header.is_err());
    if let Err(QoiError::InvalidWidthHeight(width, height)) = header {
        assert!(width == 0);
        assert!(height == 0);
    } else {
        panic!("another result");
    }
}

#[test]
fn header_bad_channels() {
    let input = [113, 111, 105, 102, 0, 0, 0, 2, 0, 0, 0, 4, 9, 0];
    let header = QoiHeaderInternal::extract(&input);
    assert!(header.is_err());
    if let Err(QoiError::InvalidChannelsValue(channels)) = header {
        assert!(channels == 9);
    } else {
        panic!("another result");
    }
}

#[test]
fn header_bad_colorspace() {
    let input = [113, 111, 105, 102, 0, 0, 0, 2, 0, 0, 0, 4, 4, 9];
    let header = QoiHeaderInternal::extract(&input);
    assert!(header.is_err());
    if let Err(QoiError::InvalidColorspaceValue(colorspace)) = header {
        assert!(colorspace == 9);
    } else {
        panic!("another result");
    }
}

#[test]
fn header_is_read_back_from_its_bytes() {
    let cases = [
        (1u32, 1u32, 3u8, 0u8),
        (2, 4, 4, 1),
        (0x0102_0304, 0xfffe_fdfc, 3, 1),
        (u32::MAX, u32::MAX, 4, 0),
        (256, 65536, 4, 1),
    ];
    for (width, height, channels, colorspace) in cases {
        let header = QoiHeaderInternal::new(width, height, channels, colorspace).public();
        let bytes = header.to_u8();
        let read = QoiHeaderInternal::extract(&bytes).unwrap();
        assert_eq!(read.magic_bytes, [113, 111, 105, 102]);
        assert_eq!(read.width, width);
        assert_eq!(read.height, height);
        assert_eq!(read.channels, channels);
        assert_eq!(read.colorspace, colorspace);
        assert_eq!(read.public().to_u8(), bytes);
    }
}

#[test]
fn header_bytes_are_big_endian() {
    let header = QoiHeaderInternal::new(0x0102_0304, 0x0a0b_0c0d, 3, 1).public();
    assert_eq!(header.to_u8(), [113, 111, 105, 102, 1, 2, 3, 4, 10, 11, 12, 13, 3, 1]);
    assert_eq!(header.magic_bytes(), [113, 111, 105, 102]);
    assert_eq!(header.width(), 0x0102_0304);
    assert_eq!(header.height(), 0x0a0b_0c0d);
    assert_eq!(header.channels(), 3);
    assert_eq!(header.colorspace(), 1);
}

#[test]
fn header_checks_come_in_order() {
    let all_wrong = [113, 110, 105, 102, 0, 0, 0, 0, 0, 0, 0, 1, 5, 2];
    assert!(matches!(
        QoiHeaderInternal::extract(&all_wrong),
        Err(QoiError::InvalidMagicBytes(113, 110, 105, 102))
    ));
    let no_width = [113, 111, 105, 102, 0, 0, 0, 0, 0, 0, 0, 1, 5, 2];
    assert!(matches!(
        QoiHeaderInternal::extract(&no_width),
        Err(QoiError::InvalidWidthHeight(0, 1))
    ));
    let no_height = [113, 111, 105, 102, 0, 0, 1, 0, 0, 0, 0, 0, 5, 2];
    assert!(matches!(
        QoiHeaderInternal::extract(&no_height),
        Err(QoiError::InvalidWidthHeight(256, 0))
    ));
    let channels = [113, 111, 105, 102, 0, 0, 1, 0, 0, 0, 0, 1, 5, 2];
    assert!(matches!(
        QoiHeaderInternal::extract(&channels),
        Err(QoiError::InvalidChannelsValue(5))
    ));
    let colorspace = [113, 111, 105, 102, 0, 0, 1, 0, 0, 0, 0, 1, 3, 2];
    assert!(matches!(
        QoiHeaderInternal::extract(&colorspace),
        Err(QoiError::InvalidColorspaceValue(2))
    ));
}
