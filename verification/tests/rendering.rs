use mail_reader::content::{is_renderable, render_text};

struct Gen(u64);

impl Gen {
    fn next(&mut self, n: u64) -> u64 {
        self.0 ^= self.0 << 13;
        self.0 ^= self.0 >> 7;
        self.0 ^= self.0 << 17;
        self.0 % n
    }
}

fn words(g: &mut Gen, out: &mut String) {
    let pieces = [
        "a", "word ", " ", "\n", "\u{4e2d}\u{6587}", "\u{1f600}", "\u{1}", "&amp;", "&nbsp;",
        "12345 ", "600 ", "\u{301}", "\u{fdfd}", "\u{2e3b}", "longerwordhere ", "<br>", "<hr>",
    ];
    let n = g.next(5);
    for _ in 0..n {
        let k = g.next(pieces.len() as u64) as usize;
        out.push_str(pieces[k]);
    }
    if g.next(20) == 0 {
        for _ in 0..g.next(120) {
            out.push_str(if g.next(3) == 0 { "\u{4e2d}" } else { "x" });
        }
    }
}

fn block(g: &mut Gen, depth: u32, out: &mut String) {
    if depth == 0 {
        words(g, out);
        return;
    }
    match g.next(12) {
        0 | 1 | 2 => table(g, depth - 1, out),
        3 => wrap(g, depth, "pre", out),
        4 => wrap(g, depth, "blockquote", out),
        5 => list(g, depth - 1, "ul", out),
        6 => list(g, depth - 1, "ol", out),
        7 => wrap(g, depth, "p", out),
        8 => wrap(g, depth, "div", out),
        9 => {
            out.push_str("<a href=\"http://example.com/x\">");
            words(g, out);
            out.push_str("</a>");
        }
        10 => {
            out.push_str("<dl><dt>");
            words(g, out);
            out.push_str("</dt><dd>");
            block(g, depth - 1, out);
            out.push_str("</dd></dl>");
        }
        _ => words(g, out),
    }
}

fn wrap(g: &mut Gen, depth: u32, tag: &str, out: &mut String) {
    out.push('<');
    out.push_str(tag);
    out.push('>');
    let n = 1 + g.next(3);
    for _ in 0..n {
        block(g, depth - 1, out);
    }
    out.push_str("</");
    out.push_str(tag);
    out.push('>');
}

fn span(g: &mut Gen, out: &mut String) {
    let spans = [
        "", "", "", " colspan=0", " colspan=1", " colspan=2", " COLSPAN=\"3\"", " colspan='7'",
        " colspan=50", " colspan=+4", " colspan=-1", " colspan=999999999", " colspan=000000000",
        " colspan=x", " colspan", " colspan=\"\"", " colspan=1 colspan=2", " colspan=99 rowspan=3",
    ];
    let k = g.next(spans.len() as u64) as usize;
    out.push_str(spans[k]);
}

fn list(g: &mut Gen, depth: u32, tag: &str, out: &mut String) {
    let starts = [
        "", "", " start=3", " start=0", " start=-5", " START=\"999999999\"", " start=-99999999",
        " start=+7", " start=x", " start", " reversed start=2",
    ];
    let k = g.next(starts.len() as u64) as usize;
    out.push('<');
    out.push_str(tag);
    out.push_str(starts[k]);
    out.push('>');
    let n = g.next(4);
    for _ in 0..n {
        out.push_str("<li>");
        block(g, depth, out);
        out.push_str("</li>");
    }
    if g.next(6) == 0 {
        words(g, out);
    }
    out.push_str("</");
    out.push_str(tag);
    out.push('>');
}

fn table(g: &mut Gen, depth: u32, out: &mut String) {
    out.push_str("<table>");
    if g.next(5) == 0 {
        out.push_str("<caption>c</caption>");
    }
    let sections = ["", "<thead>", "<tbody>", "<tfoot>"];
    let rows = g.next(4);
    for _ in 0..rows {
        let sec = g.next(4) as usize;
        out.push_str(sections[sec]);
        out.push_str("<tr>");
        let most = if g.next(10) == 0 { 120 } else { 5 };
        let cells = g.next(most);
        for _ in 0..cells {
            let th = g.next(4) == 0;
            out.push_str(if th { "<th" } else { "<td" });
            span(g, out);
            out.push('>');
            if g.next(3) != 0 {
                block(g, depth, out);
            }
            if g.next(4) != 0 {
                out.push_str(if th { "</th>" } else { "</td>" });
            }
        }
        if g.next(4) != 0 {
            out.push_str("</tr>");
        }
    }
    if g.next(6) == 0 {
        words(g, out);
    }
    out.push_str("</table>");
}

fn run(seed: u64, rounds: u32) {
    let mut g = Gen(seed);
    let mut rendered = 0;
    for _ in 0..rounds {
        let mut html = String::new();
        let depth = 1 + g.next(6) as u32;
        let tops = 1 + g.next(3);
        for _ in 0..tops {
            block(&mut g, depth, &mut html);
        }
        if html.len() > 50_000 {
            continue;
        }
        assert!(is_renderable(&html), "{:?}", html);
        for width in [80usize, 1, 3] {
            if let Some(text) = render_text(&html, width) {
                assert!(!text.contains("<td") && !text.contains("<table"));
                rendered += 1;
            }
        }
    }
    assert!(rendered > 0);
}

#[test]
fn nested_tables_lists_and_quotes_are_rendered_or_given_up() {
    run(0x1111_2222_3333_4441, 250);
}

#[test]
fn spans_starts_and_odd_characters_in_narrow_columns_are_rendered_or_given_up() {
    run(0xfeed_face_dead_beef, 250);
}

fn pick(g: &mut Gen, items: &[&str], out: &mut String) {
    let k = g.next(items.len() as u64) as usize;
    out.push_str(items[k]);
}

fn number(g: &mut Gen, out: &mut String) {
    let bits = [
        "0", "1", "9", "99", "999", "00", "+", "-", "&#57;", "&#x39;", "&#57", "&#X39", "&plus;",
        "&#48;", "&#0;", "&amp;", " ", "\t", "\r\n", "\"", "'", ">", "=", "x",
        "18446744073709551615",
        "18446744073709551616", "9223372036854775807", "9223372036854775808", "4294967295",
        "4294967296", "1000000000", "999999999", "\u{0}", "\u{ff11}", "&#65297;", "&#1632;", "\n",
    ];
    let n = g.next(5);
    for _ in 0..n {
        pick(g, &bits, out);
    }
}

fn attr(g: &mut Gen, name: &str, out: &mut String) {
    let names = [name, "COLSPAN", "Start", "xcolspan", "colspanx", "col\nspan", "rowspan"];
    pick(g, &[" ", "\t", "\n", "\r", "\r\n", "\x0c", "  ", "/"], out);
    if g.next(4) == 0 {
        pick(g, &names, out);
    } else {
        out.push_str(name);
    }
    pick(g, &["=", " =", "= ", " = ", "\t=\r\n", "", " ", "=\x0c"], out);
    let quote = ["\"", "'", "", "", "\"'"];
    let q = g.next(quote.len() as u64) as usize;
    out.push_str(quote[q]);
    number(g, out);
    if g.next(6) != 0 {
        out.push_str(quote[q]);
    }
}

fn spanned(g: &mut Gen) -> String {
    let mut out = String::new();
    let tables = 1 + g.next(2);
    for _ in 0..tables {
        out.push_str("<table>");
        let rows = 1 + g.next(4);
        for _ in 0..rows {
            pick(g, &["<tr>", "<tr>", "<thead><tr>", "<tbody><tr>", "<tfoot><tr>"], &mut out);
            let cells = g.next(6);
            for _ in 0..cells {
                pick(g, &["<td", "<th", "<TD"], &mut out);
                let attrs = g.next(3);
                for _ in 0..attrs {
                    attr(g, "colspan", &mut out);
                }
                out.push('>');
                pick(g, &["a", "", "text here", "<p>x</p>"], &mut out);
            }
        }
        out.push_str("</table>");
        if g.next(2) == 0 {
            out.push_str("<ol");
            let attrs = g.next(3);
            for _ in 0..attrs {
                attr(g, "start", &mut out);
            }
            out.push('>');
            let items = g.next(4);
            for _ in 0..items {
                out.push_str("<li>i");
            }
            out.push_str("</ol>");
        }
    }
    out
}

#[test]
fn numbers_at_the_edge_of_what_is_rendered_are_rendered_or_refused() {
    let mut g = Gen(0x0123_4567_89ab_cdef);
    let mut rendered = 0;
    let mut refused = 0;
    for _ in 0..3000 {
        let html = spanned(&mut g);
        if is_renderable(&html) {
            rendered += 1;
            let _ = render_text(&html, 80);
            let _ = render_text(&html, 5);
        } else {
            refused += 1;
            assert_eq!(render_text(&html, 80), None);
        }
    }
    assert!(rendered > 300 && refused > 300, "{} {}", rendered, refused);
}
