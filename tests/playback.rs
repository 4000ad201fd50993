use aseprite_layers::filename::decode_filename;
use aseprite_layers::index::LayerAnimationIndex;
use aseprite_layers::runtime::{
    advance_counter, animate_sprite_system, AnimationRuntime, AnimationTimer,
    DEFAULT_PERIOD_NANOS,
};
use aseprite_layers::sheet::{
    AnimationDirections, FrameInfo, LayerInfo, LayerName, Meta, SheetError, SizeInfo,
    SizeInfoMin, SpriteInfo, TagInfo,
};
use aseprite_layers::tags::{AnimationLayerInfo, BombState, FrameRange, TagVocabulary};

fn frame(name: &str, x: usize) -> FrameInfo {
    FrameInfo {
        filename: name.to_string(),
        frame: SizeInfo { x, y: 0, w: 16, h: 16 },
        rotated: false,
        trimmed: false,
        sprite_source_size: SizeInfo { x: 0, y: 0, w: 16, h: 16 },
        source_size: SizeInfoMin { w: 16, h: 16 },
        duration: 100,
    }
}

fn tag(name: &str, from: usize, to: usize) -> TagInfo {
    TagInfo { name: name.to_string(), from, to, direction: AnimationDirections::Forward }
}

fn layer(name: &str) -> LayerInfo {
    LayerInfo { name: LayerName(name.to_string()), opacity: 255, blend_mode: "normal".to_string() }
}

fn sheet(frames: &[&str], tags: Vec<TagInfo>, layers: &[&str]) -> SpriteInfo {
    SpriteInfo {
        frames: frames.iter().enumerate().map(|(i, n)| frame(n, 16 * i)).collect(),
        meta: Meta {
            app: "editor".to_string(),
            version: "1.0".to_string(),
            image: "bomb.png".to_string(),
            format: "RGBA8888".to_string(),
            size: SizeInfoMin { w: 128, h: 16 },
            scale: "1".to_string(),
            frame_tags: tags,
            layers: layers.iter().map(|n| layer(n)).collect(),
            slices: vec![],
        },
    }
}

/// Two layers: `body` has idle frames 0-1 and fuse frames 2-4, `fuse` only
/// fuse frames 2-4.
fn bomb_sheet() -> SpriteInfo {
    sheet(
        &[
            "idle-body-0000",
            "idle-body-0001",
            "fuse-body-0002",
            "fuse-body-0003",
            "fuse-body-0004",
            "fuse-fuse-0002",
            "fuse-fuse-0003",
            "fuse-fuse-0004",
        ],
        vec![tag("idle", 0, 1), tag("fuse", 2, 4)],
        &["body", "fuse"],
    )
}

fn build(doc: &SpriteInfo) -> (TagVocabulary, AnimationLayerInfo, LayerAnimationIndex) {
    let vocab = BombState::vocabulary();
    let reg = doc.extract_animation_tag_info(&vocab).unwrap();
    let index = doc.extract_layer_info(&vocab, &reg).unwrap();
    (vocab, reg, index)
}

fn position_of(index: &LayerAnimationIndex, name: &str) -> usize {
    (0..index.len()).find(|&i| index.layer(i).name().0 == name).unwrap()
}

#[test]
fn decode_idle_body() {
    let vocab = BombState::vocabulary();
    let d = decode_filename(&vocab, "idle-body-0001").ok().unwrap();
    assert_eq!(d.tag, BombState::Idle.tag());
    assert_eq!(d.layer.0, "body");
}

#[test]
fn decode_single_token_is_invalid_format() {
    let vocab = BombState::vocabulary();
    assert_eq!(decode_filename(&vocab, "idle").err(), Some(SheetError::InvalidFilenameFormat));
    assert_eq!(decode_filename(&vocab, "idle-body").err(), Some(SheetError::InvalidFilenameFormat));
}

#[test]
fn decode_unknown_tag() {
    let vocab = BombState::vocabulary();
    assert_eq!(decode_filename(&vocab, "xyz-body-0001").err(), Some(SheetError::UnknownAnimationTag));
}

#[test]
fn decode_ignores_case_and_trailing_fields() {
    let vocab = BombState::vocabulary();
    let d = decode_filename(&vocab, "FuSe-eyes-0003-extra-fields").ok().unwrap();
    assert_eq!(d.tag, BombState::Fuse.tag());
    assert_eq!(d.layer.0, "eyes");
    let e = decode_filename(&vocab, "idle--7").ok().unwrap();
    assert_eq!(e.layer.0, "");
}

#[test]
fn vocabulary_parse_and_duplicates() {
    let vocab = BombState::vocabulary();
    assert_eq!(vocab.len(), 2);
    assert_eq!(vocab.parse("idle"), Some(0));
    assert_eq!(vocab.parse("FUSE"), Some(1));
    assert_eq!(vocab.parse("fuses"), None);
    assert!(TagVocabulary::new(vec!["Walk".to_string(), "WALK".to_string()]).is_none());
    let v = TagVocabulary::new(vec!["walk".to_string(), "run".to_string()]).unwrap();
    assert_eq!(v.parse("RUN"), Some(1));
    assert_eq!(BombState::from_tag(1), Some(BombState::Fuse));
    assert_eq!(BombState::from_tag(2), None);
}

#[test]
fn registry_holds_windows() {
    let doc = bomb_sheet();
    let (_, reg, _) = build(&doc);
    assert_eq!(reg.len(), 2);
    let fuse = reg.get(BombState::Fuse.tag()).unwrap();
    assert_eq!((fuse.from, fuse.to), (2, 4));
    assert_eq!(fuse.length(), 3);
    assert!(reg.get(7).is_none());
}

#[test]
fn registry_rejects_duplicate_tag() {
    let doc = sheet(&[], vec![tag("idle", 0, 1), tag("IDLE", 2, 3)], &[]);
    let r = doc.extract_animation_tag_info(&BombState::vocabulary());
    assert_eq!(r.err(), Some(SheetError::DuplicateAnimationTag));
}

#[test]
fn registry_rejects_unknown_tag() {
    let doc = sheet(&[], vec![tag("walk", 0, 1)], &[]);
    let r = doc.extract_animation_tag_info(&BombState::vocabulary());
    assert_eq!(r.err(), Some(SheetError::UnknownAnimationTag));
}

#[test]
fn registry_rejects_inverted_range() {
    let doc = sheet(&[], vec![tag("fuse", 4, 2)], &[]);
    let r = doc.extract_animation_tag_info(&BombState::vocabulary());
    assert_eq!(r.err(), Some(SheetError::InvalidFrameRange));
}

#[test]
fn index_groups_frames_by_layer_and_tag() {
    let doc = bomb_sheet();
    let (_, _, index) = build(&doc);
    assert_eq!(index.len(), 2);
    let body = index.layer(position_of(&index, "body"));
    let fuse = index.layer(position_of(&index, "fuse"));
    assert_eq!(body.z_order(), 1);
    assert_eq!(fuse.z_order(), 2);
    assert_eq!(body.frames(0), &[0, 1]);
    assert_eq!(body.frames(1), &[2, 3, 4]);
    assert_eq!(fuse.frames(0), &[] as &[usize]);
    assert_eq!(fuse.frames(1), &[5, 6, 7]);
    assert!(body.supports(0) && body.supports(1));
    assert_eq!(body.supported_animations(), vec![0, 1]);
    assert_eq!(fuse.supported_animations(), vec![1]);
    assert!(!fuse.supports(0) && fuse.supports(1));
}

#[test]
fn indexing_twice_gives_the_same_index() {
    let doc = bomb_sheet();
    let (_, _, a) = build(&doc);
    let (_, _, b) = build(&doc);
    assert_eq!(a.len(), b.len());
    for i in 0..a.len() {
        let la = a.layer(i);
        let lb = b.layer(position_of(&b, &la.name().0));
        assert_eq!(la.z_order(), lb.z_order());
        for t in 0..2 {
            assert_eq!(la.frames(t), lb.frames(t));
        }
    }
}

#[test]
fn undeclared_layer_is_rejected() {
    let doc = sheet(&["idle-body-0000", "idle-ghost-0001"], vec![tag("idle", 0, 1)], &["body"]);
    let vocab = BombState::vocabulary();
    let reg = doc.extract_animation_tag_info(&vocab).unwrap();
    assert_eq!(doc.extract_layer_info(&vocab, &reg).err(), Some(SheetError::UndeclaredLayer));
}

#[test]
fn decode_failure_wins_over_undeclared_layer() {
    let doc = sheet(&["idle-ghost-0000", "idle"], vec![tag("idle", 0, 1)], &["body"]);
    let vocab = BombState::vocabulary();
    let reg = doc.extract_animation_tag_info(&vocab).unwrap();
    assert_eq!(doc.extract_layer_info(&vocab, &reg).err(), Some(SheetError::InvalidFilenameFormat));
}

#[test]
fn frame_of_tag_without_window_is_unknown() {
    let doc = sheet(&["fuse-body-0000"], vec![tag("idle", 0, 0)], &["body"]);
    let vocab = BombState::vocabulary();
    let reg = doc.extract_animation_tag_info(&vocab).unwrap();
    assert_eq!(doc.extract_layer_info(&vocab, &reg).err(), Some(SheetError::UnknownAnimationTag));
}

#[test]
fn z_order_is_first_declared_position() {
    let doc = sheet(
        &["idle-top-0000", "idle-bottom-0000"],
        vec![tag("idle", 0, 0)],
        &["bottom", "middle", "top", "top"],
    );
    let (_, _, index) = build(&doc);
    assert_eq!(index.layer(position_of(&index, "top")).z_order(), 3);
    assert_eq!(index.layer(position_of(&index, "bottom")).z_order(), 1);
}

#[test]
fn range_length_and_full_cycle() {
    let r = FrameRange { from: 2, to: 5, direction: AnimationDirections::Forward };
    assert_eq!(r.length(), 4);
    let mut c = 2;
    let mut seen = vec![];
    for _ in 0..4 {
        c = advance_counter(c, r);
        seen.push(c);
    }
    assert_eq!(seen, vec![3, 4, 5, 2]);
    assert_eq!(c, 2);
}

#[test]
fn advance_counter_wraps_from_outside_window() {
    let r = FrameRange { from: 2, to: 4, direction: AnimationDirections::Forward };
    assert_eq!(advance_counter(0, r), 4);
    assert_eq!(advance_counter(9, r), 4);
    let idle = FrameRange { from: 0, to: 1, direction: AnimationDirections::Forward };
    assert_eq!(advance_counter(3, idle), 0);
    assert_eq!(advance_counter(4, idle), 1);
    let whole = FrameRange { from: 0, to: usize::MAX, direction: AnimationDirections::Forward };
    assert_eq!(advance_counter(usize::MAX, whole), 0);
    assert_eq!(whole.length(), 1u128 << 64);
}

#[test]
fn timer_consumes_whole_periods() {
    let mut t = AnimationTimer::default();
    assert_eq!(t.period(), DEFAULT_PERIOD_NANOS);
    assert_eq!(t.tick(250_000_000), 2);
    assert_eq!(t.elapsed(), 50_000_000);
    assert_eq!(t.tick(49_999_999), 0);
    assert_eq!(t.tick(1), 1);
    assert_eq!(t.elapsed(), 0);
    let mut small = AnimationTimer::new(3);
    assert_eq!(small.tick(u64::MAX), (u64::MAX / 3) as u128);
}

#[test]
fn new_runtime_starts_at_window_start() {
    let doc = bomb_sheet();
    let (_, reg, index) = build(&doc);
    let rt = AnimationRuntime::new(&index, &reg, BombState::Idle.tag());
    let body = position_of(&index, "body");
    let fuse = position_of(&index, "fuse");
    assert_eq!(rt.counter(body), 0);
    assert_eq!(rt.counter(fuse), 0);
    assert!(!rt.is_visible(body) && !rt.is_visible(fuse));
    let rt2 = AnimationRuntime::new(&index, &reg, BombState::Fuse.tag());
    assert_eq!(rt2.counter(body), 2);
    assert_eq!(rt2.counter(fuse), 2);
}

#[test]
fn fuse_only_layer_hidden_while_idle() {
    let doc = bomb_sheet();
    let (_, reg, index) = build(&doc);
    let fuse = position_of(&index, "fuse");
    let mut rt = AnimationRuntime::new(&index, &reg, BombState::Idle.tag());
    for _ in 0..5 {
        rt.advance(&index, &reg);
        assert!(!rt.is_visible(fuse));
        assert_eq!(rt.counter(fuse), 0);
        assert_eq!(rt.shown_frame(&index, &reg, fuse), None);
    }
    rt.set_tag(&reg, BombState::Fuse.tag());
    assert!(!rt.is_visible(fuse));
    let mut seen = vec![];
    for _ in 0..3 {
        rt.advance(&index, &reg);
        assert!(rt.is_visible(fuse));
        seen.push(rt.counter(fuse));
    }
    assert_eq!(seen, vec![4, 2, 3]);
}

#[test]
fn two_layer_scenario() {
    let doc = bomb_sheet();
    let (_, reg, index) = build(&doc);
    let body = position_of(&index, "body");
    let fuse = position_of(&index, "fuse");
    let mut rt = AnimationRuntime::new(&index, &reg, BombState::Fuse.tag());
    let mut body_seq = vec![rt.counter(body)];
    let mut fuse_seq = vec![rt.counter(fuse)];
    for _ in 0..4 {
        rt.advance(&index, &reg);
        assert!(rt.is_visible(body) && rt.is_visible(fuse));
        body_seq.push(rt.counter(body));
        fuse_seq.push(rt.counter(fuse));
    }
    assert_eq!(body_seq, vec![2, 3, 4, 2, 3]);
    assert_eq!(fuse_seq, vec![2, 3, 4, 2, 3]);
    assert_eq!(rt.shown_frame(&index, &reg, fuse), Some(6));
    assert_eq!(rt.shown_frame(&index, &reg, body), Some(3));

    rt.set_tag(&reg, BombState::Idle.tag());
    let mut idle_seq = vec![];
    for _ in 0..5 {
        rt.advance(&index, &reg);
        assert!(!rt.is_visible(fuse));
        assert_eq!(rt.counter(fuse), 3);
        assert!(rt.is_visible(body));
        idle_seq.push(rt.counter(body));
    }
    assert_eq!(idle_seq, vec![0, 1, 0, 1, 0]);
    assert_eq!(rt.shown_frame(&index, &reg, body), Some(0));
}

#[test]
fn tick_fires_one_advance_per_period() {
    let doc = bomb_sheet();
    let (_, reg, index) = build(&doc);
    let body = position_of(&index, "body");
    let mut rt = AnimationRuntime::new(&index, &reg, BombState::Fuse.tag());
    assert_eq!(animate_sprite_system(&mut rt, &index, &reg, 60_000_000), 0);
    assert!(!rt.is_visible(body));
    assert_eq!(rt.counter(body), 2);
    assert_eq!(animate_sprite_system(&mut rt, &index, &reg, 60_000_000), 1);
    assert!(rt.is_visible(body));
    assert_eq!(rt.counter(body), 3);
    assert_eq!(rt.timer().elapsed(), 20_000_000);
    assert_eq!(animate_sprite_system(&mut rt, &index, &reg, 280_000_000), 3);
    assert_eq!(rt.counter(body), 3);
    assert_eq!(rt.timer().elapsed(), 0);
    assert_eq!(rt.current_tag(), BombState::Fuse.tag());
}

#[test]
fn decode_reads_ordinal() {
    let vocab = BombState::vocabulary();
    let ord = |n: &str| decode_filename(&vocab, n).ok().unwrap().ordinal;
    assert_eq!(ord("idle-body-0001"), Some(1));
    assert_eq!(ord("idle-body-12-extra"), Some(12));
    assert_eq!(ord("idle-body-x1"), None);
    assert_eq!(ord("idle-body-"), None);
    assert_eq!(ord("idle-body-18446744073709551615"), Some(u64::MAX));
    assert_eq!(ord("idle-body-18446744073709551616"), None);
}
