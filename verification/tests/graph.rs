use sysgraph::graph::{bl, braille, render, Grapher};

fn utf8(c: char) -> [u8; 3] {
    let mut b = [0u8; 3];
    c.encode_utf8(&mut b);
    b
}

#[test]
fn braille_dot_numbers() {
    assert_eq!(braille([[false; 4], [false; 4]]), 0);
    assert_eq!(braille([[true; 4], [true; 4]]), 255);
    assert_eq!(braille([[true, false, false, false], [false; 4]]), 1);
    assert_eq!(braille([[false, false, false, true], [false; 4]]), 64);
    assert_eq!(braille([[false; 4], [true, false, false, false]]), 8);
    assert_eq!(braille([[false; 4], [false, false, false, true]]), 128);
    assert_eq!(braille([[false, true, true, false], [false, true, true, false]]), 2 + 4 + 16 + 32);
}

#[test]
fn bl_is_utf8_of_braille_char() {
    for x in 0..=255u8 {
        assert_eq!(bl(x), utf8(char::from_u32(0x2800 + x as u32).unwrap()));
    }
}

fn head() -> Vec<u8> {
    b"\x1B[?7h\x1B[2J\x1B[1;1H".to_vec()
}

#[test]
fn render_one_cell() {
    let out = render(&vec![4, 0], 1, 1, &vec![None]);
    let mut want = head();
    want.extend(utf8('\u{2847}'));
    assert_eq!(out, want);
}

#[test]
fn render_rows_and_colors() {
    let out = render(&vec![8, 2, 0, 1], 2, 2, &vec![Some((1, 2, 3)), None]);
    let mut want = head();
    want.extend(b"\x1B[38;2;1;2;3m");
    want.extend(utf8('\u{2847}'));
    want.extend(utf8('\u{2800}'));
    want.extend(b"\r\n");
    want.extend(utf8(char::from_u32(0x2800 + (1 + 2 + 4 + 64 + 32 + 128) as u32).unwrap()));
    want.extend(utf8(char::from_u32(0x2800 + 128).unwrap()));
    assert_eq!(out, want);
}

#[test]
fn grapher_window() {
    let mut g = Grapher::new(4, 0u32);
    assert_eq!(g.data.len(), 4);
    g.push_point(7);
    g.push_point(9);
    assert_eq!(g.data.iter().copied().collect::<Vec<_>>(), vec![9, 7, 0, 0]);
    assert_eq!(g.oldest_first(), vec![0, 0, 7, 9]);
    g.fit(2, 0);
    assert_eq!(g.oldest_first(), vec![7, 9]);
    g.fit(3, 5);
    assert_eq!(g.data.iter().copied().collect::<Vec<_>>(), vec![9, 7, 5]);
    g.draw(&vec![0, 0], 1, 1, &vec![None]);
    assert_eq!(g.buffer.len(), head().len() + 3);
}

#[test]
fn column_lights_its_height() {
    for height in 0..=8usize {
        let out = render(&vec![height, 0], 1, 2, &vec![None, None]);
        let text = String::from_utf8(out[head().len()..].to_vec()).unwrap();
        let lit: u32 = text
            .chars()
            .filter(|c| ('\u{2800}'..='\u{28ff}').contains(c))
            .map(|c| (c as u32 - 0x2800).count_ones())
            .sum();
        assert_eq!(lit as usize, height);
    }
}

#[test]
fn taller_frames_light_more_dots() {
    let low = vec![0usize, 3, 5, 8];
    let high = vec![2usize, 3, 8, 8];
    let a = String::from_utf8(render(&low, 2, 2, &vec![None, None])[head().len()..].to_vec()).unwrap();
    let b = String::from_utf8(render(&high, 2, 2, &vec![None, None])[head().len()..].to_vec()).unwrap();
    let cells = |t: &str| -> Vec<u32> {
        t.chars().filter(|c| ('\u{2800}'..='\u{28ff}').contains(c)).map(|c| c as u32 - 0x2800).collect()
    };
    let (ca, cb) = (cells(&a), cells(&b));
    assert_eq!(ca.len(), 4);
    for (x, y) in ca.iter().zip(cb.iter()) {
        assert_eq!(x & !y, 0);
    }
    let empty = render(&vec![0, 0], 1, 1, &vec![None]);
    assert_eq!(cells(std::str::from_utf8(&empty[head().len()..]).unwrap()), vec![0]);
    let full = render(&vec![4, 4], 1, 1, &vec![None]);
    assert_eq!(cells(std::str::from_utf8(&full[head().len()..]).unwrap()), vec![255]);
}
