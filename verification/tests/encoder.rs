use qoi_stream::encoder::{QoiEncoder, QoiEncoderProgress};
use qoi_stream::error::QoiError;
use qoi_stream::utils::is_identical;

#[test]
fn good_new_four_byte() {
    let input = [255; 16];
    let both = QoiEncoder::new(&input, 2, 2, 4, 0);
    assert!(both.is_ok());
    if let Ok((encoder, header)) = both {
        assert!(encoder.byte_index() == 0);
        let mut index = 0;
        while index < 64 {
            assert!(encoder.seen_pixels()[index].red == 0);
            assert!(encoder.seen_pixels()[index].green == 0);
            assert!(encoder.seen_pixels()[index].blue == 0);
            assert!(encoder.seen_pixels()[index].alpha == 0);
            index += 1;
        }
        assert!(encoder.previous_pixel().red == 0);
        assert!(encoder.previous_pixel().green == 0);
        assert!(encoder.previous_pixel().blue == 0);
        assert!(encoder.previous_pixel().alpha == 255);
        assert!(encoder.pixel_amount() == 4);
        assert!(encoder.alpha());
        assert!(encoder.output_buffer_space() == 0);
        assert!(header.width() == 2);
        assert!(header.height() == 2);
        assert!(header.channels() == 4);
        assert!(header.colorspace() == 0);
    }
}

#[test]
fn good_new_three_byte() {
    let input = [255; 27];
    let both = QoiEncoder::new(&input, 3, 3, 3, 0);
    assert!(both.is_ok());
    if let Ok((encoder, header)) = both {
        assert!(encoder.byte_index() == 0);
        let mut index = 0;
        while index < 64 {
            assert!(encoder.seen_pixels()[index].red == 0);
            assert!(encoder.seen_pixels()[index].green == 0);
            assert!(encoder.seen_pixels()[index].blue == 0);
            assert!(encoder.seen_pixels()[index].alpha == 0);
            index += 1;
        }
        assert!(encoder.previous_pixel().red == 0);
        assert!(encoder.previous_pixel().green == 0);
        assert!(encoder.previous_pixel().blue == 0);
        assert!(encoder.previous_pixel().alpha == 255);
        assert!(encoder.pixel_amount() == 9);
        assert!(!encoder.alpha());
        assert!(encoder.output_buffer_space() == 0);
        assert!(header.width() == 3);
        assert!(header.height() == 3);
        assert!(header.channels() == 3);
        assert!(header.colorspace() == 0);
    }
}

#[test]
fn encoder_bad_width_height() {
    let input = [255; 16];
    let both = QoiEncoder::new(&input, 0, 0, 4, 0);
    assert!(both.is_err());
    if let Err(e) = both {
        match e {
            QoiError::InvalidWidthHeight(width, height) => {
                assert!(width == 0);
                assert!(height == 0);
            }
            _ => unreachable!(),
        }
    }
}

#[test]
fn encoder_bad_channels() {
    let input = [255; 16];
    let both = QoiEncoder::new(&input, 2, 2, 5, 0);
    assert!(both.is_err());
    if let Err(e) = both {
        match e {
            QoiError::InvalidChannelsValue(channels) => assert!(channels == 5),
            _ => unreachable!(),
        }
    }
}

#[test]
fn encoder_bad_colorspace() {
    let input = [255; 16];
    let both = QoiEncoder::new(&input, 2, 2, 4, 2);
    assert!(both.is_err());
    if let Err(e) = both {
        match e {
            QoiError::InvalidColorspaceValue(colorspace) => assert!(colorspace == 2),
            _ => unreachable!(),
        }
    }
}

#[test]
fn bad_input_data() {
    let input = [255; 15];
    let both = QoiEncoder::new(&input, 2, 2, 4, 0);
    assert!(both.is_err());
    if let Err(e) = both {
        match e {
            QoiError::IncorrectInputData(size, channels) => {
                assert!(size == 15);
                assert!(channels == 4);
            }
            _ => unreachable!(),
        }
    }
}

#[test]
fn bad_input_mismatch() {
    let input = [255; 16];
    let both = QoiEncoder::new(&input, 2, 3, 4, 0);
    assert!(both.is_err());
    if let Err(e) = both {
        match e {
            QoiError::InputHeaderMismatch(width, height, pixel_amount) => {
                assert!(width == 2);
                assert!(height == 3);
                assert!(pixel_amount == 4);
            }
            _ => unreachable!(),
        }
    }
}

#[test]
fn good_process_pixels_finished() {
    let input = [0, 0, 0, 0, 1, 1, 1, 0, 255, 255, 255, 255, 255, 255, 255, 255];
    let both = QoiEncoder::new(&input, 2, 2, 4, 0);
    assert!(both.is_ok());
    if let Ok((encoder, _)) = both {
        let ouput = [0; 10];
        let progress = encoder.process_pixels(&input, ouput);
        assert!(progress.is_ok());
        if let Ok(progress) = progress {
            match progress {
                QoiEncoderProgress::Finished(buffer, empty) => {
                    assert!(is_identical(&buffer, &[0, 127, 255, 255, 255, 255, 255, 192, 0, 0]));
                    assert!(empty == 2);
                }
                _ => unreachable!(),
            }
        }
    }
}

#[test]
fn good_process_pixels_unfinished() {
    let input = [
        0, 0, 0, 255, 0, 0, 0, 222, 0, 0, 0, 222, 0, 0, 0, 222, 0, 0, 0, 255, 0, 0, 0, 222, 0, 0, 0,
        222, 0, 2, 0, 222, 128, 128, 128, 222, 255, 255, 255, 255, 255, 255, 255, 255, 255, 255,
        255, 255,
    ];
    let both = QoiEncoder::new(&input, 2, 6, 4, 0);
    assert!(both.is_ok());
    if let Ok((encoder, _)) = both {
        let ouput = [0; 20];
        let progress = encoder.process_pixels(&input, ouput);
        assert!(progress.is_ok());
        if let Ok(progress) = progress {
            match progress {
                QoiEncoderProgress::Unfinished(encoder, buffer, empty) => {
                    assert!(empty == 4);
                    assert!(encoder.byte_index() == 36);
                    let mut index = 0;
                    while index < 64 {
                        match index {
                            10 => {
                                assert!(encoder.seen_pixels()[index].red == 128);
                                assert!(encoder.seen_pixels()[index].green == 128);
                                assert!(encoder.seen_pixels()[index].blue == 128);
                                assert!(encoder.seen_pixels()[index].alpha == 222);
                            }
                            20 => {
                                assert!(encoder.seen_pixels()[index].red == 0);
                                assert!(encoder.seen_pixels()[index].green == 2);
                                assert!(encoder.seen_pixels()[index].blue == 0);
                                assert!(encoder.seen_pixels()[index].alpha == 222);
                            }
                            53 => {
                                assert!(encoder.seen_pixels()[index].red == 0);
                                assert!(encoder.seen_pixels()[index].green == 0);
                                assert!(encoder.seen_pixels()[index].blue == 0);
                                assert!(encoder.seen_pixels()[index].alpha == 255);
                            }
                            _ => {
                                assert!(encoder.seen_pixels()[index].red == 0);
                                assert!(encoder.seen_pixels()[index].green == 0);
                                assert!(encoder.seen_pixels()[index].blue == 0);
                                assert!(encoder.seen_pixels()[index].alpha == 0);
                            }
                        }
                        index += 1;
                    }
                    assert!(encoder.previous_pixel().red == 128);
                    assert!(encoder.previous_pixel().green == 128);
                    assert!(encoder.previous_pixel().blue == 128);
                    assert!(encoder.previous_pixel().alpha == 222);
                    assert!(encoder.pixel_amount() == 3);
                    assert!(encoder.alpha());
                    assert!(encoder.output_buffer_space() == 4);
                    assert!(is_identical(
                        &buffer,
                        &[
                            192, 255, 0, 0, 0, 222, 193, 53, 10, 192, 162, 102, 254, 128, 128, 128,
                            0, 0, 0, 0
                        ]
                    ));
                }
                _ => unreachable!(),
            }
        }
    }
}

#[test]
fn bad_process_pixels_buffer_size() {
    let input = [255; 16];
    let both = QoiEncoder::new(&input, 2, 2, 4, 0);
    assert!(both.is_ok());
    if let Ok((encoder, _)) = both {
        let ouput = [0; 4];
        let progress = encoder.process_pixels(&input, ouput);
        assert!(progress.is_err());
        if let Err(e) = progress {
            match e {
                QoiError::BufferTooSmall(size) => assert!(size == 4),
                _ => unreachable!(),
            }
        }
    }
}
