use toptui::grid::{
    card_body, card_slots, card_title, column_slot_list, command_lines, cpu_order, grid_row_areas,
    plan_grid, row_slot_list, split_rows, visible_window,
};
use toptui::layout::Slot;
use toptui::process::Process;
use toptui::status::Status;
use toptui::layout::{filter_areas, screen_areas, Area};

fn area(x: u16, y: u16, width: u16, height: u16) -> Area {
    Area { x, y, width, height }
}

#[test]
fn cpu_order_is_stable_and_falling() {
    assert_eq!(cpu_order(&[5, 9, 5, 0, 9]), vec![1, 4, 0, 2, 3]);
    assert!(cpu_order(&[]).is_empty());
    assert_eq!(cpu_order(&[1, 1, 1]), vec![0, 1, 2]);
}

#[test]
fn window_of_cards() {
    let order = [4, 3, 2, 1, 0];
    assert_eq!(visible_window(&order, 0, 2), vec![4, 3]);
    assert_eq!(visible_window(&order, 3, 10), vec![1, 0]);
    assert_eq!(visible_window(&order, 5, 10), Vec::<usize>::new());
    assert_eq!(visible_window(&order, 99, 1), Vec::<usize>::new());
}

#[test]
fn two_command_lines() {
    assert_eq!(command_lines("abcdefg", 3), ("abc".to_string(), "def".to_string()));
    assert_eq!(command_lines("abcde", 3), ("abc".to_string(), "de".to_string()));
    assert_eq!(command_lines("ab", 3), ("ab".to_string(), "".to_string()));
    assert_eq!(command_lines("äöü€x", 2), ("äö".to_string(), "ü€".to_string()));
    assert_eq!(command_lines("abc", 0), ("".to_string(), "".to_string()));
}

#[test]
fn layout_parts() {
    let (stats, filter, main) = screen_areas(area(0, 0, 100, 40));
    assert_eq!(stats, area(0, 0, 100, 7));
    assert_eq!(filter, area(0, 7, 100, 3));
    assert_eq!(main, area(0, 10, 100, 30));
    let (filters, search) = filter_areas(area(0, 7, 100, 3));
    assert_eq!(filters, area(0, 7, 75, 3));
    assert_eq!(search, area(75, 7, 25, 3));
}

#[test]
fn grid_slots_and_cards() {
    let main = area(0, 10, 100, 30);
    let slots = card_slots(main);
    // 100 / 50 + 1 = 3 columns, 30 / 6 = 5 rows
    assert_eq!(slots.len(), 15);
    assert_eq!(slots[0].y, 10);
    assert_eq!(slots[0].height, 6);
    assert_eq!(slots[3].y, 16);
    let plan = plan_grid(main, &[1, 50, 7, 50], 0);
    assert_eq!(plan.slots, slots);
    assert_eq!(plan.cards, vec![1, 3, 2, 0]);
    assert_eq!(plan.command_width, 100 / 3 - 7);
    let plan = plan_grid(main, &[1, 50, 7, 50], 1);
    assert_eq!(plan.cards, vec![0]);
    let plan = plan_grid(area(0, 0, 40, 3), &[1, 2], 0);
    assert!(plan.slots.is_empty());
    assert!(plan.cards.is_empty());
}

fn inside(a: &Area, outer: &Area) -> bool {
    outer.x <= a.x
        && a.x as u32 + a.width as u32 <= outer.x as u32 + outer.width as u32
        && outer.y <= a.y
        && a.y as u32 + a.height as u32 <= outer.y as u32 + outer.height as u32
}

#[test]
fn rows_split_into_columns() {
    let rows = [area(0, 0, 90, 6), area(0, 6, 90, 6)];
    let slots = split_rows(&rows, 3);
    assert_eq!(slots, vec![
        area(0, 0, 30, 6), area(30, 0, 30, 6), area(60, 0, 30, 6),
        area(0, 6, 30, 6), area(30, 6, 30, 6), area(60, 6, 30, 6),
    ]);
    assert!(split_rows(&[], 4).is_empty());
}

#[test]
fn grid_has_rows_times_columns_slots_inside_the_panel() {
    for (w, h) in [(100u16, 30u16), (49, 13), (151, 61), (7, 6)] {
        let main = area(3, 4, w, h);
        let slots = card_slots(main);
        assert_eq!(slots.len(), (h / 6) as usize * (w / 50 + 1) as usize);
        assert!(slots.iter().all(|s| inside(s, &main)));
    }
    let plan = plan_grid(area(0, 0, 100, 12), &[3, 1, 4, 1, 5, 9, 2, 6], 1);
    // 2 rows of 3 columns; offset 1 skips the first 3 of the 8 processes
    assert_eq!(plan.cards.len(), 5);
    assert_eq!(plan_grid(area(0, 0, 100, 6), &[3, 1, 4, 1, 5], 0).cards.len(), 3);
}

#[test]
fn slot_lists() {
    assert_eq!(row_slot_list(3), vec![Slot::Length(6); 3]);
    assert!(row_slot_list(0).is_empty());
    assert_eq!(column_slot_list(2), vec![Slot::Fill(1); 2]);
}

#[test]
fn grid_rows_are_card_high_bands() {
    let rows = grid_row_areas(area(2, 10, 80, 20));
    assert_eq!(rows, vec![area(2, 10, 80, 6), area(2, 16, 80, 6), area(2, 22, 80, 6)]);
}

#[test]
fn screen_and_filter_tile_their_areas() {
    for h in [10u16, 11, 40] {
        let (a, b, c) = screen_areas(area(0, 1, 30, h));
        assert_eq!((a.y, a.height, b.y, b.height, c.y), (1, 7, 8, 3, 11));
        assert_eq!(c.y + c.height, 1 + h);
    }
    for w in [4u16, 10, 99, 100] {
        let (f, s) = filter_areas(area(5, 0, w, 3));
        assert_eq!(f.x, 5);
        assert_eq!(s.x, f.x + f.width);
        assert_eq!(s.x + s.width, 5 + w);
        assert!((4 * f.width as i32 - 3 * w as i32).abs() <= 2);
    }
}

fn sample_process() -> Process {
    Process {
        pid: 42,
        name: "bash".to_string(),
        state: Status::Running,
        memory_kb: 5000,
        virt_kb: 0,
        shr_kb: 0,
        threads: 1,
        user: "ana".to_string(),
        command: "/usr/bin/bash --login".to_string(),
        utime: 0,
        stime: 0,
        prev_utime: 0,
        prev_stime: 0,
        cpu_ticks: 0,
        time: (0, 0, 0, 0),
    }
}

#[test]
fn card_texts() {
    let p = sample_process();
    assert_eq!(card_title(&p), format!("PID {}  {}", p.pid.to_string(), p.user));
    let (cmd1, cmd2) = command_lines(&p.command, 8);
    let expected = format!(
        "NAME: {}\nRAM: {} KB\nCPU: {:.2} %\nCMD: {}\n     {}",
        p.name, p.memory_kb, 12.345f64, cmd1, cmd2,
    );
    assert_eq!(card_body(&p, &format!("{:.2}", 12.345f64), 8), expected);
    assert_eq!(card_body(&p, "0.00", 8), "NAME: bash\nRAM: 5000 KB\nCPU: 0.00 %\nCMD: /usr/bin\n     /bash --");
}
