use space_sync::render_effects::{drop_finished, RenderEffect, RenderEffectManager};

#[derive(Debug, PartialEq)]
struct Countdown {
    name: char,
    until: u32,
    drawn: u32,
}

impl RenderEffect for Countdown {
    fn tick_and_render(&mut self, tick: u32) -> bool {
        self.drawn += 1;
        tick >= self.until
    }
}

#[test]
fn finished_effects_are_dropped_in_order() {
    let mut m = RenderEffectManager::new();
    m.add_effect(Countdown { name: 'a', until: 1, drawn: 0 });
    m.add_effect(Countdown { name: 'b', until: 3, drawn: 0 });
    m.add_effect(Countdown { name: 'c', until: 2, drawn: 0 });
    m.render_all(1);
    assert_eq!(m.effects.iter().map(|e| e.name).collect::<String>(), "bc");
    m.render_all(2);
    assert_eq!(m.effects.iter().map(|e| e.name).collect::<String>(), "b");
    assert_eq!(m.effects[0].drawn, 2);
    m.render_all(3);
    assert!(m.effects.is_empty());
}

#[test]
fn drop_finished_keeps_unfinished_in_order() {
    let kept = drop_finished(vec!['a', 'b', 'c', 'd'], &vec![true, false, true, false]);
    assert_eq!(kept, vec!['b', 'd']);
    let none: Vec<char> = drop_finished(Vec::new(), &Vec::new());
    assert!(none.is_empty());
}
