use liteclaw::agent::visible_answer;

#[test]
fn plain_text_is_visible() {
    assert_eq!(visible_answer("后雾灯：旋环 4 转 AUTO。"), "后雾灯：旋环 4 转 AUTO。");
}

#[test]
fn think_only_turn_has_no_visible_answer() {
    assert!(visible_answer("<think>reasoning draft…</think>").is_empty());
    assert!(visible_answer("<think>unclosed reasoning…").is_empty());
    assert!(visible_answer("").is_empty());
    assert!(visible_answer("  \n").is_empty());
}

#[test]
fn text_after_think_blocks_survives() {
    let t = "<think>phase 1</think><think>phase 2</think>按除雾键（按钮 13）。";
    assert_eq!(visible_answer(t), "按除雾键（按钮 13）。");
    let t = "先看这里<think>mid-turn reasoning</think>然后是结论。";
    assert_eq!(visible_answer(t), "先看这里然后是结论。");
}

#[test]
fn stray_closing_tag_before_opening_makes_progress() {
    let t = "a</think>b<think>c</think>d";
    assert_eq!(visible_answer(t), "a</think>bd");
}
