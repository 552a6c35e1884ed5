use keymenu::bindings::{Binding, BindingTable};
use keymenu::engine::{InputEvent, ResolutionEngine, ResolutionOutcome};

fn chars(s: &str) -> Vec<char> {
    s.chars().collect()
}

fn binding(key: &str, output: &str, description: &str) -> Binding {
    Binding::new(chars(key), chars(output), chars(description))
}

fn table_of(entries: &[(&str, &str)]) -> BindingTable {
    let mut v = Vec::new();
    for (k, o) in entries {
        v.push(binding(k, o, ""));
    }
    BindingTable::load(v)
}

fn resolved(output: &str) -> ResolutionOutcome {
    ResolutionOutcome::Resolved(chars(output))
}

#[test]
fn uniqueness_is_not_required_when_an_exact_match_exists() {
    // {"a": "X", "ab": "Y"}: typing 'a' resolves immediately to "X", even
    // though "ab" is still reachable.
    let table = table_of(&[("a", "X"), ("ab", "Y")]);
    let mut engine = ResolutionEngine::new();
    assert_eq!(engine.on_char(&table, 'a'), resolved("X"));
}

#[test]
fn ambiguous_prefix_continues_then_resolves() {
    // {"ab": "X", "ac": "Y"}: 'a' is ambiguous, 'b' settles it.
    let table = table_of(&[("ab", "X"), ("ac", "Y")]);
    let mut engine = ResolutionEngine::new();
    assert_eq!(engine.on_char(&table, 'a'), ResolutionOutcome::Continue);
    assert_eq!(table.reachable_from(engine.buffer()).len(), 2);
    assert_eq!(engine.on_char(&table, 'b'), resolved("X"));
}

#[test]
fn backspace_on_empty_buffer_is_a_no_op() {
    let table = table_of(&[("ab", "X")]);
    let mut engine = ResolutionEngine::new();
    assert_eq!(engine.on_backspace(), ResolutionOutcome::Continue);
    assert_eq!(engine.buffer().len(), 0);
    assert_eq!(
        engine.on_event(&table, InputEvent::Backspace),
        ResolutionOutcome::Continue
    );
    assert_eq!(engine.buffer().len(), 0);
}

#[test]
fn cancel_wins_whatever_the_buffer_holds() {
    let table = table_of(&[("ab", "X"), ("ac", "Y")]);
    let mut engine = ResolutionEngine::new();
    assert_eq!(engine.on_cancel(), ResolutionOutcome::Cancelled);
    // Mid-sequence: 'a' keeps the session open, cancel still ends it at once.
    assert_eq!(engine.on_char(&table, 'a'), ResolutionOutcome::Continue);
    assert_eq!(
        engine.on_event(&table, InputEvent::Cancel),
        ResolutionOutcome::Cancelled
    );
    // The buffer was not touched by the cancel.
    assert_eq!(engine.buffer(), &chars("a"));
}

#[test]
fn dead_end_continues_and_backspace_restores_the_candidates() {
    let table = table_of(&[("ab", "X"), ("ac", "Y")]);
    let mut engine = ResolutionEngine::new();
    assert_eq!(engine.on_char(&table, 'a'), ResolutionOutcome::Continue);
    let before = table.reachable_from(engine.buffer());
    assert_eq!(before.len(), 2);
    // 'z' matches no binding's prefix: the buffer keeps growing, nothing is
    // reachable, and the session continues.
    assert_eq!(engine.on_char(&table, 'z'), ResolutionOutcome::Continue);
    assert_eq!(engine.buffer(), &chars("az"));
    assert_eq!(table.reachable_from(engine.buffer()).len(), 0);
    // One backspace restores the prior reachable set exactly.
    assert_eq!(engine.on_backspace(), ResolutionOutcome::Continue);
    assert_eq!(engine.buffer(), &chars("a"));
    assert_eq!(table.reachable_from(engine.buffer()), before);
}

#[test]
fn duplicate_key_sequences_resolve_to_the_first_in_table_order() {
    let table = table_of(&[("x", "X1"), ("x", "X2")]);
    let mut engine = ResolutionEngine::new();
    assert_eq!(engine.on_char(&table, 'x'), resolved("X1"));
}

#[test]
fn end_to_end_two_step_selection() {
    // Bindings gg -> "top", ge -> "bottom": after 'g' two rows are still
    // reachable and nothing resolves; 'e' then resolves to "bottom".
    let table = table_of(&[("gg", "top"), ("ge", "bottom")]);
    let mut engine = ResolutionEngine::new();
    assert_eq!(
        engine.on_event(&table, InputEvent::Key('g')),
        ResolutionOutcome::Continue
    );
    let rows = keymenu::project::project(&table, engine.buffer());
    assert_eq!(rows.len(), 2);
    assert_eq!(
        engine.on_event(&table, InputEvent::Key('e')),
        resolved("bottom")
    );
}

#[test]
fn single_binding_still_takes_one_matching_keystroke() {
    // Even a one-entry table never resolves on load: the engine only decides
    // after a character lands.
    let table = table_of(&[("ab", "X")]);
    let mut engine = ResolutionEngine::new();
    assert_eq!(engine.buffer().len(), 0);
    // The first matching character already commits, by uniqueness, although
    // the full sequence "ab" was never typed.
    assert_eq!(engine.on_char(&table, 'a'), resolved("X"));
}

#[test]
fn growing_a_dead_end_keeps_continuing() {
    let table = table_of(&[("ab", "X")]);
    let mut engine = ResolutionEngine::new();
    assert_eq!(engine.on_char(&table, 'q'), ResolutionOutcome::Continue);
    assert_eq!(engine.on_char(&table, 'q'), ResolutionOutcome::Continue);
    assert_eq!(table.reachable_from(engine.buffer()).len(), 0);
    // Two deletions recover the empty buffer and the full table.
    assert_eq!(engine.on_backspace(), ResolutionOutcome::Continue);
    assert_eq!(engine.on_backspace(), ResolutionOutcome::Continue);
    assert_eq!(table.reachable_from(engine.buffer()).len(), 1);
}

#[test]
fn empty_table_never_resolves() {
    let table = BindingTable::load(Vec::new());
    let mut engine = ResolutionEngine::new();
    assert_eq!(engine.on_char(&table, 'a'), ResolutionOutcome::Continue);
    assert_eq!(table.reachable_from(engine.buffer()).len(), 0);
    assert_eq!(
        engine.on_event(&table, InputEvent::Cancel),
        ResolutionOutcome::Cancelled
    );
}

#[test]
fn other_events_change_nothing() {
    let table = table_of(&[("ab", "X")]);
    let mut engine = ResolutionEngine::new();
    assert_eq!(engine.on_char(&table, 'a'), resolved("X"));
    assert_eq!(
        engine.on_event(&table, InputEvent::Other),
        ResolutionOutcome::Continue
    );
    assert_eq!(engine.buffer(), &chars("a"));
}

#[test]
fn exact_match_beats_a_longer_competitor_even_later() {
    // A buffer that equals one key resolves although another binding shares
    // the prefix: {"ab": "X", "abc": "Y"} and typing "ab".
    let table = table_of(&[("abc", "Y"), ("ab", "X")]);
    let mut engine = ResolutionEngine::new();
    assert_eq!(engine.on_char(&table, 'a'), ResolutionOutcome::Continue);
    assert_eq!(engine.on_char(&table, 'b'), resolved("X"));
}
