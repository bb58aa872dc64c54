//! Borders, panes and texts as lists of drawing steps.

use ezpn::cli::{has_arg, session_arg, subcommand, Subcommand};
use ezpn::layout::{Layout, Rect};
use ezpn::render::paint::{
    draw_content, draw_status_bar, render_panes, vt100_to_crossterm, CellColor, PaneShot,
    ScreenCell,
};
use ezpn::render::{
    border_char, build_border_cache, make_inner, title_button_hit, Arms, BorderStyle, Color,
    DrawOp, TitleAction,
};
use ezpn::text::{
    decimal_text, find_text, lower_text, parse_signed_text, parse_unsigned_text, split_text,
    trim_text, words_of,
};
use std::collections::{HashMap, HashSet};

fn cell(contents: &str, bold: bool) -> ScreenCell {
    ScreenCell {
        contents: contents.to_string(),
        fg: CellColor::Default,
        bg: CellColor::Default,
        bold,
        italic: false,
        underline: false,
        inverse: false,
    }
}

fn printed(ops: &[DrawOp]) -> String {
    let mut s = String::new();
    for op in ops {
        if let DrawOp::Print(t) = op {
            s.push_str(t);
        }
    }
    s
}

#[test]
fn the_inner_area_leaves_room_for_borders_and_status() {
    assert_eq!(make_inner(80, 24, false), Rect { x: 1, y: 1, w: 78, h: 22 });
    assert_eq!(make_inner(80, 24, true), Rect { x: 1, y: 1, w: 78, h: 21 });
}

#[test]
fn border_cells_join_their_lines() {
    let ch = BorderStyle::Single.chars();
    let arms = |up, down, left, right| Arms { up, down, left, right };
    assert_eq!(border_char(&arms(true, true, false, false), &ch), ch.v);
    assert_eq!(border_char(&arms(false, false, true, true), &ch), ch.h);
    assert_eq!(border_char(&arms(true, true, true, true), &ch), ch.xj);
    assert_eq!(border_char(&arms(false, true, false, true), &ch), ch.tl);
    assert_eq!(BorderStyle::from_str("heavy"), Some(BorderStyle::Heavy));
    assert_eq!(BorderStyle::from_str("wavy"), None);
}

#[test]
fn title_buttons_are_found_by_their_place() {
    let layout = Layout::from_grid(1, 2);
    let cache = build_border_cache(&layout, true, 80, 24);
    let inner = *cache.inner();
    let rect = cache.pane_rects()[&0];
    let hits: Vec<TitleAction> = (rect.x..rect.x + rect.w)
        .filter_map(|x| title_button_hit(x, rect.y - 1, &layout, &inner))
        .collect();
    assert!(hits.contains(&TitleAction::Close(0)));
    assert!(hits.contains(&TitleAction::SplitH(0)));
    assert!(hits.contains(&TitleAction::SplitV(0)));
    assert!(title_button_hit(rect.x + 2, rect.y + 2, &layout, &inner).is_none());
}

#[test]
fn cells_are_printed_in_order() {
    let cells = vec![vec![cell("a", false), cell("b", true), cell("c", false)]];
    let mut ops = Vec::new();
    draw_content(&mut ops, &cells, &Rect { x: 4, y: 5, w: 3, h: 1 }, true);
    assert_eq!(printed(&ops), "abc");
    assert!(ops.contains(&DrawOp::MoveTo(4, 5)));
    assert!(ops.contains(&DrawOp::Bold));
}

#[test]
fn colours_are_those_of_the_terminal() {
    assert_eq!(vt100_to_crossterm(CellColor::Default), Color::Reset);
    assert_eq!(vt100_to_crossterm(CellColor::Idx(9)), Color::AnsiValue(9));
    assert_eq!(vt100_to_crossterm(CellColor::Rgb(1, 2, 3)), Color::Rgb { r: 1, g: 2, b: 3 });
}

#[test]
fn a_frame_shows_every_pane_and_the_status() {
    let layout = Layout::from_grid(1, 2);
    let cache = build_border_cache(&layout, true, 40, 10);
    let mut panes = HashMap::new();
    for id in [0usize, 1] {
        let rect = cache.pane_rects()[&id];
        let row = vec![cell(if id == 0 { "x" } else { "y" }, false); rect.w as usize];
        panes.insert(id, PaneShot { alive: true, cells: vec![row; rect.h as usize], cursor: (0, 0) });
    }
    let mut ops = Vec::new();
    render_panes(
        &mut ops, &panes, &layout, 0, BorderStyle::Single, true, 40, 10, false, &cache,
        &HashSet::new(), true,
    );
    let text = printed(&ops);
    assert!(text.contains("xxx") && text.contains("yyy"));
    let mut ops = Vec::new();
    draw_status_bar(&mut ops, 40, 10, 0, 2, "PREFIX");
    assert!(printed(&ops).contains("PREFIX"));
}

#[test]
fn texts_are_read_as_std_reads_them() {
    for s in ["  a b ", "\t", "x", "\u{2003}y\u{a0}"] {
        assert_eq!(trim_text(s), s.trim());
        let words: Vec<String> = s.split_whitespace().map(|w| w.to_string()).collect();
        assert_eq!(words_of(s), words);
    }
    for s in ["", "7", "+7", "-7", "007", "65536", "18446744073709551616", "x"] {
        assert_eq!(parse_unsigned_text(s, u64::MAX), s.parse::<u64>().ok(), "{s:?}");
        assert_eq!(parse_signed_text(s), s.parse::<i64>().ok(), "{s:?}");
    }
    for n in [0u128, 9, 10, 12_345, u128::MAX] {
        assert_eq!(decimal_text(n), n.to_string());
    }
    assert_eq!(lower_text("AbC-9"), "abc-9");
    assert_eq!(find_text("hello", "ll"), Some(2));
    assert_eq!(find_text("hello", "x"), None);
    assert_eq!(split_text("a,,b", ','), vec!["a", "", "b"]);
}

#[test]
fn the_first_word_picks_the_subcommand() {
    assert_eq!(subcommand(Some("ls")), Subcommand::Ls);
    assert_eq!(subcommand(Some("--server")), Subcommand::Server);
    assert_eq!(subcommand(Some("anything")), Subcommand::Session);
    assert_eq!(subcommand(None), Subcommand::Session);
    let args: Vec<String> = ["ezpn", "--session", "work", "--new"].iter().map(|s| s.to_string()).collect();
    assert!(has_arg(&args, "--new") && !has_arg(&args, "--old"));
    assert_eq!(session_arg(&args), Some("work"));
}

#[test]
fn separators_are_drawn_where_the_frame_has_no_room() {
    let row = Layout::from_grid(1, 2);
    let cache = build_border_cache(&row, true, 0, 24);
    assert_eq!(cache.cells.len(), 23);
    assert!(cache.cells.iter().all(|c| c.x == 1));
    let single = Layout::from_grid(1, 1);
    assert!(build_border_cache(&single, true, 0, 24).cells.is_empty());
    let column = Layout::from_grid(2, 1);
    let cache = build_border_cache(&column, false, 80, 0);
    assert_eq!(cache.cells.len(), 80);
    assert!(cache.cells.iter().all(|c| c.y == 1));
}
