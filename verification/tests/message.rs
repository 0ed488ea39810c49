use gix_tix::layout::Area;
use gix_tix::look::{Look, Piece, Tint};
use gix_tix::message::{TrailerPlacement, commit_text, split_lines, trailer_layout};

fn plain() -> Look {
    Look { fg: None, bold: false, dim: false, italic: false, reversed: false, undimmed: false }
}

fn piece(text: &str, look: Look) -> Piece {
    Piece { text: text.as_bytes().to_vec(), look }
}

#[test]
fn splits_lines_like_the_standard_library() {
    assert_eq!(split_lines(b""), vec![Vec::<u8>::new()], "empty text is one empty line");
    assert_eq!(split_lines(b"a\r\nb\n"), vec![b"a".to_vec(), b"b".to_vec()]);
    assert_eq!(split_lines(b"a\n\nb"), vec![b"a".to_vec(), Vec::new(), b"b".to_vec()]);
    assert_eq!(split_lines(b"\n"), vec![Vec::<u8>::new()]);
}

#[test]
fn commit_text_bolds_the_title_and_colors_notes() {
    let note = Look { fg: Some(Tint::LightMagenta), ..plain() };
    let lines = commit_text(b"subject", Some(b"body\r\nline two\n"), &vec![b"a note".to_vec()]);
    assert_eq!(
        lines,
        vec![
            vec![piece("subject", Look { bold: true, ..plain() })],
            vec![],
            vec![piece("body", plain())],
            vec![piece("line two", plain())],
            vec![],
            vec![piece("Notes", Look { bold: true, ..note }), piece(":", note)],
            vec![piece("a note", note)],
        ]
    );
    let bare = commit_text(b"", Some(b""), &Vec::new());
    assert_eq!(bare, vec![vec![piece("", Look { bold: true, ..plain() })]], "an empty body adds nothing");
}

#[test]
fn trailers_follow_the_body_and_scroll_with_it() {
    let area = Area { x: 0, y: 0, width: 40, height: 5 };
    let (max_offset, top) = trailer_layout(area, 3, &vec![1, 2, 1], 0);
    assert_eq!(max_offset, 3, "eight rows in a pane of five");
    assert_eq!(top, vec![TrailerPlacement { index: 0, y: 4, skipped: 0, height: 1, shows_key: true }]);
    let (_, bottom) = trailer_layout(area, 3, &vec![1, 2, 1], 9);
    assert_eq!(
        bottom,
        vec![
            TrailerPlacement { index: 0, y: 1, skipped: 0, height: 1, shows_key: true },
            TrailerPlacement { index: 1, y: 2, skipped: 0, height: 2, shows_key: true },
            TrailerPlacement { index: 2, y: 4, skipped: 0, height: 1, shows_key: true },
        ],
        "offsets past the end are clamped"
    );
    let short = Area { x: 0, y: 0, width: 40, height: 2 };
    let (_, split) = trailer_layout(short, 0, &vec![3], 2);
    assert_eq!(
        split,
        vec![TrailerPlacement { index: 0, y: 0, skipped: 1, height: 2, shows_key: false }],
        "a value scrolled partly away keeps its remaining lines and loses its key"
    );
}
