use klondike::cards::Card;
use klondike::cards::Pile;
use klondike::glyphs::card_back;
use klondike::glyphs::card_face;
use klondike::glyphs::empty_slot;
use klondike::render::get_max_lines;
use klondike::render::render_foundations;
use klondike::render::render_prompt;
use klondike::render::render_stock;
use klondike::render::render_table;
use klondike::render::render_waste;
use klondike::table::State;
use klondike::table::initialize_table;

fn empty_pile() -> Pile {
    Pile { cards: Vec::new(), empty: empty_slot() }
}

fn empty_state(score: i16, draw: i8) -> State {
    let mut tableau: Vec<Pile> = Vec::new();
    for _ in 0..7 {
        tableau.push(empty_pile());
    }
    let mut foundations: Vec<Pile> = Vec::new();
    for _ in 0..4 {
        foundations.push(empty_pile());
    }
    State {
        draw,
        score,
        stock: empty_pile(),
        waste: empty_pile(),
        tableau,
        foundations,
    }
}

fn dealt_state() -> State {
    let mut states: Vec<State> = Vec::new();
    initialize_table(&mut states);
    states.pop().unwrap()
}

fn stack_of(n: usize) -> Pile {
    let mut cards: Vec<Card> = Vec::new();
    for i in 0..n {
        cards.push(Card {
            rank: (i % 13) as i8,
            suit: ((i / 13) % 4) as i8,
            flip: false,
            face: card_face((i % 13) as i8, ((i / 13) % 4) as i8),
            back: card_back(),
        });
    }
    Pile { cards, empty: empty_slot() }
}

#[test]
fn max_lines_all_empty_is_twenty_seven() {
    let st = empty_state(0, 1);
    assert_eq!(get_max_lines(&st), 27);
}

#[test]
fn max_lines_tallest_column_of_seven_is_thirty_nine() {
    let mut st = empty_state(0, 1);
    st.tableau[3] = stack_of(7);
    assert_eq!(get_max_lines(&st), 39);
}

#[test]
fn max_lines_tallest_column_of_fifty_one() {
    let mut st = empty_state(0, 1);
    st.tableau[0] = stack_of(51);
    assert_eq!(get_max_lines(&st), 127);
}

#[test]
fn max_lines_after_deal_is_thirty_nine() {
    let st = dealt_state();
    assert_eq!(get_max_lines(&st), 39);
}

#[test]
fn stock_empty_renders_the_empty_slot() {
    let st = empty_state(0, 1);
    let expected = format!("Stock\x1b[1E(0 Cards)\x1b[1E{}", empty_slot());
    assert_eq!(render_stock(&st), expected);
}

#[test]
fn stock_after_deal_shows_twenty_four_and_a_back() {
    let st = dealt_state();
    let expected = format!("Stock\x1b[1E(24 Cards)\x1b[1E{}", card_back());
    assert_eq!(render_stock(&st), expected);
}

#[test]
fn waste_empty_renders_the_empty_slot_only() {
    let st = empty_state(0, 1);
    let expected = format!("Waste\x1b[1B\x1b[5D(0 Cards)\x1b[1B\x1b[9D{}\x1b[14C", empty_slot());
    assert_eq!(render_waste(&st), expected);
}

#[test]
fn waste_of_five_in_draw_three_fans_two_cards() {
    let mut st = dealt_state();
    st.draw = 3;
    st.stock.move_cards(&mut st.waste, 5);
    let frame = render_waste(&st);
    assert_eq!(frame.matches("\x1b[8D ").count(), 2);
    let top = &st.waste.cards[4];
    assert!(frame.contains(top.face.as_str()));
}

#[test]
fn waste_of_one_fans_nothing() {
    let mut st = dealt_state();
    st.draw = 3;
    st.stock.move_cards(&mut st.waste, 1);
    let frame = render_waste(&st);
    assert_eq!(frame.matches("\x1b[8D ").count(), 0);
    assert!(frame.contains(st.waste.cards[0].face.as_str()));
    assert!(frame.ends_with("\x1b[14C"));
}

#[test]
fn waste_of_two_in_draw_three_fans_one_card() {
    let mut st = dealt_state();
    st.draw = 3;
    st.stock.move_cards(&mut st.waste, 2);
    let frame = render_waste(&st);
    assert_eq!(frame.matches("\x1b[8D ").count(), 1);
    assert!(frame.ends_with("\x1b[8C"));
}

#[test]
fn waste_in_draw_one_never_fans() {
    let mut st = dealt_state();
    st.stock.move_cards(&mut st.waste, 5);
    let frame = render_waste(&st);
    assert_eq!(frame.matches("\x1b[8D ").count(), 0);
}

#[test]
fn prompt_exact_for_score_zero() {
    let st = empty_state(0, 1);
    let frame = render_prompt(&st, "> ");
    let expected = format!(
        "┌────────{}─┬─{}{}─┐\x1b[1E│ Score: 0 │ > {} │\x1b[1E└────────{}─┴─{}{}─┘\x1b[1F\x1b[15C\x1b[s",
        "─".repeat(1),
        "─".repeat(2),
        "─".repeat(80),
        " ".repeat(80),
        "─".repeat(1),
        "─".repeat(2),
        "─".repeat(80),
    );
    assert_eq!(frame, expected);
}

fn prompt_row_widths(score: i16, prompt: &str) -> (usize, usize, usize) {
    let st = empty_state(score, 1);
    let frame = render_prompt(&st, prompt);
    let rows: Vec<&str> = frame.split("\x1b[1E").collect();
    assert_eq!(rows.len(), 3);
    let top = rows[0];
    let mid = rows[1];
    let bot_and_park = rows[2];
    let park_at = bot_and_park.find("\x1b[1F").unwrap();
    let bot = &bot_and_park[..park_at];
    (top.chars().count(), mid.chars().count(), bot.chars().count())
}

#[test]
fn prompt_box_width_is_invariant_over_scores() {
    assert_eq!(prompt_row_widths(5, "> "), (97, 97, 97));
    assert_eq!(prompt_row_widths(1234, "> "), (97, 97, 97));
    assert_eq!(prompt_row_widths(-32768, "> "), (97, 97, 97));
    assert_eq!(prompt_row_widths(0, "enter a move: "), (97, 97, 97));
}

#[test]
fn foundations_empty_render_exactly() {
    let st = empty_state(0, 1);
    let mut expected = String::new();
    for i in 0..4 {
        expected.push_str(&format!(
            "Foundation {}\x1b[1B\x1b[12D(0 Cards)\x1b[1B\x1b[9D{}",
            i + 1,
            empty_slot(),
        ));
        if i < 3 {
            expected.push_str("\x1b[10A\x1b[1C");
        }
    }
    assert_eq!(render_foundations(&st), expected);
}

#[test]
fn full_frame_shape_after_deal() {
    let st = dealt_state();
    let frame = render_table(&st, "> ");
    assert!(frame.starts_with("\x1b[1F"));
    assert!(frame.ends_with("\x1b[u"));
    assert_eq!(frame.matches("\x1b[2K\x1b[1E").count(), 39);
    assert!(frame.contains("\x1b[0J\x1b[39F"));
    assert!(frame.contains("Stock"));
    assert!(frame.contains("(24 Cards)"));
    assert!(frame.contains("Waste"));
    assert!(frame.contains("Foundation 4"));
    assert!(frame.contains("Column 7"));
}

#[test]
fn full_frame_all_empty_clears_twenty_seven_lines() {
    let st = empty_state(0, 1);
    let frame = render_table(&st, "> ");
    assert_eq!(frame.matches("\x1b[2K\x1b[1E").count(), 27);
    assert!(frame.contains("\x1b[0J\x1b[27F"));
}
