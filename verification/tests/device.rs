use drm_grabber::find::{FindAsk, FramebufferSearch};
use drm_grabber::frames::{frame_pause, FrameGate};
use drm_grabber::hdr::{hdr_override, HdrAsk, HdrMode, HdrSearch};

struct Property {
    name: Option<&'static str>,
    value: u64,
    blob: Option<usize>,
}

struct Connector {
    connected: Option<bool>,
    properties: Option<Vec<Property>>,
}

fn property(name: &'static str, value: u64) -> Property {
    Property { name: Some(name), value, blob: None }
}

/// Answers every question of a search, and returns what it found and how many it asked.
fn search_hdr(device: &[Connector]) -> (bool, usize) {
    let mut search = HdrSearch::new(device.len());
    let mut asked = 0;
    loop {
        asked += 1;
        match search.ask() {
            HdrAsk::Connector { connector } => search.on_connector(device[connector].connected),
            HdrAsk::Properties { connector } => {
                search.on_properties(device[connector].properties.as_ref().map(|p| p.len()))
            }
            HdrAsk::Property { connector, property } => {
                let p = &device[connector].properties.as_ref().unwrap()[property];
                let name = p.name.map(|n| n.to_string());
                search.on_property(name.as_ref(), p.value)
            }
            HdrAsk::Blob { connector, property, blob } => {
                let p = &device[connector].properties.as_ref().unwrap()[property];
                assert_eq!(p.value, blob);
                search.on_blob(p.blob)
            }
            HdrAsk::Done { hdr } => return (hdr, asked - 1),
        }
    }
}

fn connected(properties: Vec<Property>) -> Connector {
    Connector { connected: Some(true), properties: Some(properties) }
}

#[test]
fn no_connectors_show_no_hdr() {
    assert_eq!(search_hdr(&[]), (false, 0));
}

#[test]
fn bt2020_colorspaces_show_hdr() {
    for value in 0..20 {
        let found = search_hdr(&[connected(vec![property("Colorspace", value)])]);
        assert_eq!(found.0, (8..=10).contains(&value));
    }
    assert!(!search_hdr(&[connected(vec![property("colorspace", 9)])]).0);
}

#[test]
fn metadata_show_hdr_unless_they_are_empty() {
    for (value, blob, expected) in
        [(7, Some(30), true), (7, Some(0), false), (7, None, false), (0, Some(30), false)]
    {
        let metadata = Property { name: Some("HDR_OUTPUT_METADATA"), value, blob };
        assert_eq!(search_hdr(&[connected(vec![metadata])]).0, expected);
    }
}

#[test]
fn what_cannot_be_read_is_passed_over() {
    let device = [
        Connector { connected: None, properties: None },
        Connector {
            connected: Some(false),
            properties: Some(vec![property("Colorspace", 9)]),
        },
        Connector { connected: Some(true), properties: None },
        connected(vec![]),
        connected(vec![
            Property { name: None, value: 9, blob: None },
            property("", 9),
            Property { name: Some("HDR_OUTPUT_METADATA"), value: 5, blob: None },
            property("Colorspace", 10),
            property("Colorspace", 0),
        ]),
        connected(vec![property("Colorspace", 9)]),
    ];
    // One question for each of the first two connectors, two for each of the next two, and seven
    // up to the property that shows it.
    assert_eq!(search_hdr(&device), (true, 2 + 4 + 7));
    assert_eq!(search_hdr(&device[..4]), (false, 6));
}

#[test]
fn forcing_hdr_wins() {
    assert_eq!(hdr_override(true, true), Some(true));
    assert_eq!(hdr_override(true, false), Some(true));
    assert_eq!(hdr_override(false, true), Some(false));
    assert_eq!(hdr_override(false, false), None);
}

#[test]
fn modes_are_announced_when_they_change() {
    let mut mode = HdrMode::new();
    let announced: Vec<bool> =
        [false, false, true, true, false].iter().map(|hdr| mode.update(*hdr)).collect();
    assert_eq!(announced, vec![true, false, true, false, true]);
    assert!(HdrMode::new().update(true));
}

fn search_framebuffer(
    crtcs: &[(bool, Option<u32>)],
    planes: &[(bool, Option<u32>)],
) -> (Option<u32>, usize) {
    let mut search = FramebufferSearch::new(crtcs.len());
    let mut asked = 0;
    loop {
        asked += 1;
        match search.ask() {
            FindAsk::Crtc { crtc } => search.on_crtc(crtcs[crtc].0, crtcs[crtc].1),
            FindAsk::Planes => search.on_planes(planes.len()),
            FindAsk::Plane { plane } => search.on_plane(planes[plane].0, planes[plane].1),
            FindAsk::Done { framebuffer } => return (framebuffer, asked - 1),
        }
    }
}

#[test]
fn the_first_crtc_with_a_mode_and_a_framebuffer() {
    let crtcs = [(false, Some(1)), (true, None), (true, Some(3)), (true, Some(4))];
    assert_eq!(search_framebuffer(&crtcs, &[(true, Some(9))]), (Some(3), 3));
}

#[test]
fn planes_when_no_crtc_shows_anything() {
    let crtcs = [(false, Some(1)), (true, None)];
    let planes = [(false, Some(7)), (false, None), (true, Some(8)), (true, Some(9))];
    assert_eq!(search_framebuffer(&crtcs, &planes), (Some(8), 2 + 1 + 3));
}

#[test]
fn nothing_on_the_screen() {
    assert_eq!(search_framebuffer(&[], &[]), (None, 1));
    assert_eq!(search_framebuffer(&[(true, None)], &[(false, Some(1))]), (None, 3));
}

#[test]
fn unchanged_frames_are_skipped_and_counted() {
    let mut gate: FrameGate<&str> = FrameGate::new();
    let mut bright = [0u32; 32];
    bright[31] = 1;
    assert!(gate.on_samples(bright));
    gate.on_image("bright");
    assert_eq!(gate.skipped(), 0);
    assert!(!gate.on_samples(bright));
    assert!(!gate.on_samples(bright));
    assert_eq!(gate.skipped(), 2);
    assert_eq!(gate.image(), Some(&"bright"));
    let mut other = bright;
    other[0] = 5;
    assert!(gate.is_unchanged(&bright));
    assert!(!gate.is_unchanged(&other));
    assert!(gate.on_samples(other));
    assert_eq!(gate.skipped(), 0);
    // A frame that could not be dumped leaves the image before it.
    assert!(!gate.on_samples(other));
    assert_eq!(gate.image(), Some(&"bright"));
    assert!(gate.on_samples(bright));
}

#[test]
fn a_black_first_frame_counts_as_unchanged() {
    let mut gate: FrameGate<u8> = FrameGate::new();
    assert_eq!(gate.image(), None);
    assert!(!gate.on_samples([0; 32]));
    assert_eq!(gate.skipped(), 1);
    assert_eq!(gate.image(), None);
}

#[test]
fn frames_are_waited_for() {
    assert_eq!(frame_pause(100_000_000, 30_000_000), Some(70_000_000));
    assert_eq!(frame_pause(100_000_000, 99_999_999), Some(1));
    assert_eq!(frame_pause(100_000_000, 100_000_000), None);
    assert_eq!(frame_pause(100_000_000, 100_000_001), None);
}
