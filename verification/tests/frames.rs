use amogus::{amogify, amogify_frames, Color, Delay, Frame, PixelBuffer};

fn frame(color: Color, numer: u32, denom: u32) -> Frame {
    Frame { buffer: PixelBuffer::filled(8, 5, color).unwrap(), delay: Delay { numer, denom } }
}

#[test]
fn every_frame_is_transformed_by_itself() {
    let red = Color::new(255, 0, 0, 255);
    let grey = Color::new(100, 100, 100, 50);
    let frames = vec![frame(red, 100, 1), frame(grey, 200, 1), frame(red, 100, 1)];
    let out = amogify_frames(&frames);
    assert_eq!(out.len(), 3);
    for (before, after) in frames.iter().zip(out.iter()) {
        assert_eq!(after.buffer.pixels(), amogify(&before.buffer).pixels());
        assert_eq!(after.delay, before.delay);
    }
    assert_eq!(out[1].buffer.get_pixel(2, 1), Color::new(108, 108, 108, 50));
}

#[test]
fn delays_are_kept_as_they_are() {
    let c = Color::new(1, 2, 3, 4);
    let out = amogify_frames(&vec![frame(c, 100, 3), frame(c, 0, 1), frame(c, 7, 7)]);
    let delays: Vec<Delay> = out.iter().map(|f| f.delay).collect();
    assert_eq!(
        delays,
        vec![
            Delay { numer: 100, denom: 3 },
            Delay { numer: 0, denom: 1 },
            Delay { numer: 7, denom: 7 }
        ]
    );
}

#[test]
fn no_frames_in_no_frames_out() {
    assert!(amogify_frames(&Vec::new()).is_empty());
}

#[test]
fn a_delay_is_read_as_numerator_and_denominator() {
    assert_eq!(Delay::from_pair((30, 4)), Delay { numer: 30, denom: 4 });
}
