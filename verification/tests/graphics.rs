use lapi_launcher::graphics::base64;

#[test]
fn encodes_base64_padding_and_binary_data() {
    for (input, output) in [
        (&b""[..], ""),
        (&b"f"[..], "Zg=="),
        (&b"fo"[..], "Zm8="),
        (&b"foo"[..], "Zm9v"),
        (&[255, 254, 253][..], "//79"),
    ] {
        assert_eq!(base64(input), output);
    }
}

use lapi_launcher::app::Rect;
use lapi_launcher::graphics::{image_id, transfer, CellSize, LegacyImage, Placements};

fn image(id: u32) -> LegacyImage {
    LegacyImage::new(&[137, 80, 78, 71, 1, 2, 3], CellSize { width: 6, height: 3 }, id)
}

#[test]
fn image_identifiers_combine_the_process_and_a_count() {
    assert_eq!(image_id(0x1234_5678, 0x9abc_def0), 0x5678_def0);
    assert_eq!(image_id(1, 2), 0x0001_0002);
}

#[test]
fn transfers_are_split_into_chunks_of_4096() {
    let encoded = "A".repeat(5000);
    let sent = transfer(&encoded, 7);
    assert!(sent.starts_with("\x1b_Ga=t,f=100,t=d,i=7,q=2,m=1;"));
    assert!(sent.contains("\x1b\\\x1b_Gm=0;"));
    assert_eq!(sent.matches("\x1b\\").count(), 2);
    assert_eq!(transfer("", 7), "");
    let one = transfer("QUJD", 9);
    assert_eq!(one, "\x1b_Ga=t,f=100,t=d,i=9,q=2,m=0;QUJD\x1b\\");
}

#[test]
fn legacy_graphics_restores_unchanged_placements_after_resize() {
    let image = image(77);
    let mut placements = Placements::default();
    let area = Rect::new(3, 4, 6, 3);
    placements.set_viewport(Rect::new(0, 0, 100, 40));
    placements.push(image.clone(), area);
    placements.flush();

    placements.begin();
    placements.set_viewport(Rect::new(0, 0, 100, 41));
    placements.push(image.clone(), area);
    let resized = placements.flush();
    assert!(resized.starts_with(&format!("\x1b_Ga=d,d=I,i={},q=2\x1b\\", image.id)));
    assert!(resized.contains("a=t,f=100"));
    assert!(resized.contains(&format!("a=p,i={}", image.id)));

    placements.begin();
    placements.set_viewport(Rect::new(0, 0, 100, 41));
    placements.push(image, area);
    let repeated = placements.flush();
    assert!(repeated.is_empty());
    placements.begin();
    placements.flush();
}

#[test]
fn legacy_graphics_reuses_images_and_removes_stale_placements() {
    let image = image(78);
    let mut placements = Placements::default();
    let area = Rect::new(3, 4, 6, 3);
    placements.push(image.clone(), area);
    let output = placements.flush();
    assert!(output.contains("a=t,f=100"));
    assert!(output.contains("a=p,"));
    assert!(!output.contains("U=1"));
    assert!(output.contains("\x1b[5;4H"));
    let repeated = placements.flush();
    assert!(repeated.is_empty());
    placements.begin();
    let removed = placements.flush();
    assert!(removed.contains(&format!("d=I,i={}", image.id)));
}
