use lazydeck::screen_layout::{notification_boxes, CellRect, MessageSize};
use lazydeck::screen_layout::{confirm_box, input_box, select_box};
use lazydeck::input_view::{cursor_column, mask, text_width};
use lazydeck::half_block::{pixel_pair, rgba_to_color, rgba_to_lines, HalfBlock, Rgb, Rgba};
use lazydeck::limited_read::LimitedRead;
use lazydeck::preview_cache::{PreviewCache, PreviewKey};
use lazydeck::preview_layout::{
    clamp_offset, fallback_size, layout_chunks, rendered_text_height, scroll_offset, visible_placements,
    Chunk, Placement,
};
use lazydeck::socket::{frame_message, line_text, parse_socket_addr, SocketAddrError};

#[test]
fn image_renders_to_half_block_lines() {
    let pixels: Vec<Rgba> = vec![(255, 0, 0, 255), (0, 255, 0, 255), (0, 0, 255, 255), (255, 255, 0, 255)];

    let lines = rgba_to_lines(&pixels, 2, 2);

    assert_eq!(lines.len(), 1);
    assert_eq!(lines[0].len(), 2);
    assert_eq!(lines[0][0].symbol(), "▀");
    assert_eq!(lines[0][1].symbol(), "▀");
    assert_eq!(
        lines[0][0],
        HalfBlock::Both(Rgb { r: 255, g: 0, b: 0 }, Rgb { r: 0, g: 0, b: 255 })
    );
}

#[test]
fn odd_height_images_end_with_upper_halves() {
    let pixels: Vec<Rgba> = vec![(10, 20, 30, 255), (0, 0, 0, 0), (1, 2, 3, 0)];
    let lines = rgba_to_lines(&pixels, 1, 3);
    assert_eq!(lines.len(), 2);
    assert_eq!(lines[0][0], HalfBlock::Upper(Rgb { r: 10, g: 20, b: 30 }));
    assert_eq!(lines[1][0], HalfBlock::Blank);
    assert_eq!(lines[1][0].symbol(), " ");
    assert_eq!(pixel_pair((0, 0, 0, 0), (9, 9, 9, 255)).symbol(), "▄");
}

#[test]
fn alpha_scales_channels() {
    assert_eq!(rgba_to_color((255, 128, 0, 128)), Some(Rgb { r: 128, g: 64, b: 0 }));
    assert_eq!(rgba_to_color((255, 255, 255, 0)), None);
}

#[test]
fn text_height_counts_wrapped_rows() {
    assert_eq!(rendered_text_height(&[0, 5, 10, 11], 5), 1 + 1 + 2 + 3);
    assert_eq!(rendered_text_height(&[3], 0), 3);
    assert_eq!(rendered_text_height(&[], 10), 0);
}

#[test]
fn chunks_are_laid_out_in_order() {
    let s = |t: &str| t.to_string();
    let chunks = vec![
        Chunk::Text { rows: 3, lines: vec![s("a"), s("b")] },
        Chunk::Image { native: Some((4, 2)), width: 10, height: 2, lines: vec![s("i1"), s("i2")] },
        Chunk::ImageError { line: s("[image error] bad") },
        Chunk::Image { native: None, width: 3, height: 1, lines: vec![s("j")] },
        Chunk::Image { native: Some((0, 5)), width: 3, height: 1, lines: vec![s("k")] },
    ];
    let layout = layout_chunks(chunks, String::new(), 40, 12);
    assert_eq!(layout.lines, vec!["a", "b", "i1", "i2", "[image error] bad", "j", "k"]);
    assert_eq!(
        layout.placements,
        vec![Placement { visual_start: 3, logical_start: 2, logical_len: 2, x: 0, y: 3, width: 4, height: 2 }]
    );
    assert_eq!((layout.width, layout.height), (40, 12));
}

#[test]
fn a_preview_of_text_shows_its_lines_in_order() {
    let chunks = vec![
        Chunk::Text { rows: 1, lines: vec!["one".to_string()] },
        Chunk::Text { rows: 0, lines: Vec::new() },
        Chunk::Text { rows: 2, lines: vec!["two".to_string(), "three".to_string()] },
    ];
    let layout = layout_chunks(chunks, String::new(), 10, 5);
    assert_eq!(layout.lines, vec!["one", "two", "three"]);
    assert!(layout.placements.is_empty());
}

#[test]
fn an_empty_preview_shows_one_blank_line() {
    let layout = layout_chunks(Vec::<Chunk<String>>::new(), String::new(), 7, 3);
    assert_eq!(layout.lines, vec![String::new()]);
    assert!(layout.placements.is_empty());
    assert_eq!((layout.width, layout.height), (7, 3));
    let layout = layout_chunks(vec![Chunk::Text { rows: 0, lines: Vec::<String>::new() }], String::new(), 7, 3);
    assert_eq!(layout.lines, vec![String::new()]);
}

#[test]
fn only_whole_images_in_view_are_drawn() {
    let placements = vec![
        Placement { visual_start: 0, logical_start: 0, logical_len: 2, x: 0, y: 0, width: 8, height: 2 },
        Placement { visual_start: 5, logical_start: 5, logical_len: 4, x: 0, y: 5, width: 20, height: 4 },
    ];
    let shown = visible_placements(&placements, 1, 2, 3, 10, 10);
    assert_eq!(
        shown,
        vec![Placement { visual_start: 5, logical_start: 5, logical_len: 4, x: 2, y: 7, width: 10, height: 4 }]
    );
    assert!(visible_placements(&placements, 0, 0, 0, 10, 3).len() == 1);
}

#[test]
fn offsets_scroll_and_clamp() {
    assert_eq!(clamp_offset(50, 30, 10), 20);
    assert_eq!(clamp_offset(5, 30, 10), 5);
    assert_eq!(clamp_offset(5, 3, 10), 0);
    assert_eq!(scroll_offset(3, -5), 0);
    assert_eq!(scroll_offset(3, 4), 7);
    assert_eq!(scroll_offset(65530, 100), 65535);
    assert_eq!(scroll_offset(40000, i16::MIN), 40000 - 32768);
    assert_eq!(fallback_size(Some((0, 7)), 40, None), (1, Some(7)));
    assert_eq!(fallback_size(None, 40, Some(9)), (40, Some(9)));
}

fn key(path: &str, width: u16) -> PreviewKey {
    PreviewKey { path: path.to_string(), len: 1, modified_ns: 2, width, max_height: None }
}

#[test]
fn preview_cache_evicts_least_recently_used() {
    let mut cache: PreviewCache<u32> = PreviewCache::new(2);
    cache.insert(key("a", 1), 1);
    cache.insert(key("b", 1), 2);
    assert!(cache.touch(&key("a", 1)));
    cache.insert(key("c", 1), 3);
    assert!(cache.contains(&key("a", 1)));
    assert!(!cache.contains(&key("b", 1)));
    assert_eq!(cache.peek(&key("c", 1)), Some(&3));
    cache.insert(key("a", 1), 10);
    assert_eq!(cache.peek(&key("a", 1)), Some(&10));
    assert_eq!(cache.entries.len(), 2);
    assert!(!cache.contains(&key("a", 2)));
}

#[test]
fn zero_capacity_cache_keeps_the_newest() {
    let mut cache: PreviewCache<u32> = PreviewCache::new(0);
    cache.insert(key("a", 1), 1);
    cache.insert(key("b", 1), 2);
    assert_eq!(cache.entries.len(), 1);
    assert_eq!(cache.peek(&key("b", 1)), Some(&2));
}

fn read_all(chunks: &[&[u8]], limit: usize) -> Result<(String, bool), String> {
    let mut reader = LimitedRead::new(limit);
    let mut rest = chunks.iter();
    loop {
        match rest.next() {
            Some(chunk) => {
                let stop = reader.feed(chunk).map_err(|e| e.message())?;
                if stop {
                    let more = rest.next().map(|c| !c.is_empty()).unwrap_or(false);
                    reader.probe(more);
                    break;
                }
            }
            None => {
                reader.finish().map_err(|e| e.message())?;
                break;
            }
        }
    }
    Ok(reader.into_result())
}

#[test]
fn limited_read_joins_sequences_split_across_chunks() {
    let text = "a搜索b".as_bytes();
    let (head, tail) = text.split_at(2);
    assert_eq!(read_all(&[head, tail], 10), Ok(("a搜索b".to_string(), false)));
}

#[test]
fn limited_read_stops_at_the_limit() {
    assert_eq!(read_all(&[b"hello world"], 5), Ok(("hello".to_string(), true)));
    assert_eq!(read_all(&[b"hello", b" world"], 5), Ok(("hello".to_string(), true)));
    assert_eq!(read_all(&[b"hello"], 5), Ok(("hello".to_string(), false)));
    assert_eq!(read_all(&[b"abc"], 0), Ok((String::new(), true)));
}

#[test]
fn limited_read_rejects_invalid_utf8() {
    let err = read_all(&[b"ab\xffcd"], 10).unwrap_err();
    assert!(err.starts_with("stream did not contain valid UTF-8: "));
    let err = read_all(&[b"ab\xe6\x90"], 10).unwrap_err();
    assert!(err.starts_with("stream did not contain valid UTF-8"));
}

#[test]
fn feeding_tells_a_cut_sequence_from_an_invalid_one() {
    let mut reader = LimitedRead::new(10);
    // A sequence cut by the chunk's end waits.
    assert!(matches!(reader.feed(b"ab\xe6\x90"), Ok(false)));
    assert_eq!(reader.output, "ab");
    assert_eq!(reader.pending, vec![0xe6, 0x90]);
    // An invalid byte after the valid prefix is an error at once.
    let mut reader = LimitedRead::new(10);
    assert!(reader.feed(b"ab\xffcd").is_err());
    // An invalid continuation of a started sequence is an error.
    let mut reader = LimitedRead::new(10);
    assert!(reader.feed(b"\xe6a").is_err());
}

#[test]
fn a_stopped_read_keeps_the_limit_and_marks_truncation() {
    let mut bytes = "ab搜".as_bytes().to_vec();
    bytes.push(0xe6);
    let mut reader = LimitedRead::new(3);
    assert!(matches!(reader.feed(&bytes), Ok(true)));
    reader.probe(false);
    assert_eq!(reader.into_result(), ("ab搜".to_string(), true));
    let mut reader = LimitedRead::new(3);
    assert!(matches!(reader.feed(b"abc"), Ok(true)));
    reader.probe(false);
    assert_eq!(reader.into_result(), ("abc".to_string(), false));
    let mut reader = LimitedRead::new(3);
    assert!(matches!(reader.feed(b"abc"), Ok(true)));
    reader.probe(true);
    assert_eq!(reader.into_result(), ("abc".to_string(), true));
}

#[test]
fn a_file_read_in_chunks_gives_its_text() {
    let bytes = "h\u{e9}llo \u{641c}\u{7d22}".as_bytes();
    for split in 0..bytes.len() {
        let mut reader = LimitedRead::new(100);
        assert!(matches!(reader.feed(&bytes[..split]), Ok(false)));
        assert!(matches!(reader.feed(&bytes[split..]), Ok(false)));
        assert!(reader.finish().is_ok());
        assert_eq!(reader.into_result(), ("h\u{e9}llo \u{641c}\u{7d22}".to_string(), false));
    }
    let mut reader = LimitedRead::new(100);
    assert!(matches!(reader.feed(&bytes[..2]), Ok(false)));
    assert!(reader.finish().is_err());
}

#[test]
fn socket_addresses_are_parsed() {
    assert_eq!(parse_socket_addr("unix:/tmp/s.sock"), Ok("/tmp/s.sock".to_string()));
    assert_eq!(parse_socket_addr("/tmp/s.sock"), Ok("/tmp/s.sock".to_string()));
    assert_eq!(parse_socket_addr("unix:"), Err(SocketAddrError::Empty));
    assert_eq!(parse_socket_addr(""), Err(SocketAddrError::Empty));
    assert_eq!(parse_socket_addr("tcp:1"), Err(SocketAddrError::Unsupported("tcp:1".to_string())));
    assert_eq!(SocketAddrError::Empty.message(), "Socket address cannot be empty");
    assert_eq!(
        SocketAddrError::Unsupported("x:y".to_string()).message(),
        "Unsupported socket address 'x:y'"
    );
}

#[test]
fn socket_lines_are_framed() {
    assert_eq!(line_text("hello\r\n"), "hello");
    assert_eq!(line_text("a\n\n"), "a");
    assert_eq!(line_text("plain"), "plain");
    assert_eq!(frame_message("ping"), "ping\n");
    assert_eq!(frame_message("ping\n"), "ping\n");
}

#[test]
fn notifications_stack_upward_from_the_corner() {
    let messages = [MessageSize { lines: 1, width: 5 }, MessageSize { lines: 2, width: 30 }];
    let boxes = notification_boxes(&messages, 80, 24);
    assert_eq!(
        boxes,
        vec![
            CellRect { x: 80 - 32 - 2, y: 23 - 4, width: 32, height: 4 },
            CellRect { x: 80 - 20 - 2, y: 18 - 3, width: 20, height: 3 },
        ]
    );
    assert!(notification_boxes(&messages, 80, 3).is_empty());
    assert_eq!(notification_boxes(&[MessageSize { lines: 0, width: 0 }], 10, 5).len(), 1);
}

#[test]
fn dialogs_are_centred() {
    assert_eq!(confirm_box(80, 24), CellRect { x: 20, y: 7, width: 40, height: 10 });
    assert_eq!(input_box(30, 2), CellRect { x: 0, y: 0, width: 50, height: 3 });
    assert_eq!(select_box(200, 50), CellRect { x: 60, y: 15, width: 80, height: 20 });
    assert_eq!(select_box(30, 5), CellRect { x: 0, y: 0, width: 40, height: 10 });
}

#[test]
fn input_render_helpers_place_cursor_and_mask() {
    assert_eq!(text_width(8, 1), 5);
    assert_eq!(text_width(2, 1), 0);
    assert_eq!(cursor_column(0, 8, 1, 5), 6);
    assert_eq!(cursor_column(0, 8, 1, 2), 4);
    assert_eq!(mask("hunter2"), "•••••••");
    assert_eq!(mask(""), "");
}

#[test]
fn input_dialog_render_scrolls_text_horizontally() {
    use_input_layout();
}

fn use_input_layout() {
    let text = "abcdef";
    let area_x: u16 = 0;
    let arrow_width: u16 = 1;
    let inner = lazydeck::input_view::text_width(8, arrow_width);
    let (_, visible, offset) = lazydeck::input_view::InputDialogWidget::visible_window(text, text.len(), inner);
    let cursor_x = lazydeck::input_view::cursor_column(area_x, 8, arrow_width, offset);
    assert_eq!(cursor_x, 6);
    // Text starts after the border and the arrow.
    let first_text_column = area_x + 1 + arrow_width;
    let cell = |x: u16| visible.chars().nth((x - first_text_column) as usize).unwrap_or(' ');
    assert_eq!(cell(4), 'e');
    assert_eq!(cell(5), 'f');
    assert_eq!(cell(6), ' ');
}

#[test]
fn input_dialog_secret_mode_masks_text() {
    let text = "hunter2";
    let inner = lazydeck::input_view::text_width(20, 1);
    let (_, visible, _) = lazydeck::input_view::InputDialogWidget::visible_window(text, text.len(), inner);
    let shown = lazydeck::input_view::mask(&visible);
    for (x, ch) in shown.chars().enumerate() {
        assert_eq!(ch, '•', "cell {} should be masked", 3 + x);
    }
    assert_eq!(shown.chars().count(), "hunter2".len());
    assert!(!shown.contains("hunter2"), "secret text leaked into render buffer");
}

#[test]
fn image_bounds_take_the_tighter_limits() {
    use_image_bounds();
}

fn use_image_bounds() {
    use_bounds(Some(30), Some(8), 20, Some(5), (20, Some(5)));
    use_bounds(None, None, 20, None, (20, None));
    use_bounds(Some(10), None, 20, Some(7), (10, Some(7)));
}

fn use_bounds(mw: Option<u16>, mh: Option<u16>, avail: u16, limit: Option<u16>, expected: (u16, Option<u16>)) {
    assert_eq!(lazydeck::preview_layout::image_bounds(mw, mh, avail, limit), expected);
}

#[test]
fn tab_labels_and_area() {
    use_tabs();
}

fn use_tabs() {
    use_label(Some("mail"), "/x", "mail");
    use_label(None, "/docker/container", "docker/container");
    use_label(None, "/", "/");
    use_label(Some("//a"), "/", "a");
    assert_eq!(lazydeck::header::tab_text(0, "mail"), "1:mail");
    assert_eq!(lazydeck::header::tab_area(2, 80, 10), Some((72, 10)));
    assert_eq!(lazydeck::header::tab_area(2, 8, 10), None);
    assert_eq!(lazydeck::header::tab_area(2, 8, 0), None);
}

fn use_label(title: Option<&str>, path: &str, expected: &str) {
    assert_eq!(lazydeck::header::tab_label(title, path), expected);
}
