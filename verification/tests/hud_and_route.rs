use bozzard::flap_route::{FlapRoute, Key, Observation, RouteAction, RouteFailure, Snapshot};
use bozzard::hud::{hud_draw_list, hud_encodes, HudError, HudItem};
use bozzard::menu::GamePhase;

fn item(text: bool, screen: bool, mesh: bool, tint: [f32; 3]) -> HudItem {
    HudItem { text, screen, mesh, tint: [tint[0].to_bits(), tint[1].to_bits(), tint[2].to_bits()] }
}

#[test]
fn hud_draws_screen_texts_only() {
    let items = vec![
        item(true, true, true, [0., 1., 0.]),
        item(false, true, true, [0.1; 3]),
        item(true, false, true, [0.5; 3]),
        item(true, true, false, [0.5; 3]),
        item(true, true, true, [-0., 0.25, 1.]),
    ];
    assert_eq!(hud_draw_list(true, &items), Ok(vec![0, 4]));
    assert_eq!(hud_draw_list(false, &items), Ok(vec![]));
}

#[test]
fn hud_refuses_bad_tints() {
    for bad in [1.01, -0.1, f32::NAN, f32::INFINITY] {
        let items = vec![item(true, true, true, [0., bad, 0.])];
        assert_eq!(hud_draw_list(true, &items), Err(HudError::InvalidTint));
        // Without a glyph atlas nothing is drawn, so nothing is checked.
        assert_eq!(hud_draw_list(false, &items), Ok(vec![]));
    }
    // A world-space text with a bad tint is not the HUD's concern.
    let items = vec![item(true, false, true, [2., 0., 0.])];
    assert_eq!(hud_draw_list(true, &items), Ok(vec![]));
}

#[test]
fn hud_encodes_only_linear_non_raw_targets() {
    assert!(hud_encodes(false, false));
    assert!(!hud_encodes(true, false));
    assert!(!hud_encodes(false, true));
}

/// A toy game that plays the route's expectations.
struct Toy {
    phase: GamePhase,
    score: u32,
    height: f32,
    ticks: u32,
    world: u32,
    lift: u32,
}

impl Toy {
    fn observe(&self, initial: Option<u32>, paused: Option<u32>, ended: Option<u32>) -> Observation {
        Observation {
            phase: self.phase,
            score: format!("Score: {}", self.score),
            bird_low: self.height < -0.4,
            bird_high: self.height > 1.,
            same_as_initial: initial == Some(self.world),
            same_as_paused: paused == Some(self.world),
            same_as_ended: ended == Some(self.world),
        }
    }
    fn act(&mut self, a: RouteAction) {
        match a {
            RouteAction::Press(Key::Enter) => {
                self.phase = GamePhase::Playing;
                if self.world != 0 {
                    self.world = 0;
                    self.score = 0;
                    self.ticks = 0;
                }
            }
            RouteAction::Press(Key::Escape) => {
                self.phase = match self.phase {
                    GamePhase::Playing => GamePhase::Paused,
                    GamePhase::Paused => GamePhase::Playing,
                    p => p,
                }
            }
            RouteAction::Press(Key::KeyQ) => self.phase = GamePhase::Quit,
            RouteAction::Press(Key::KeyR) => {
                self.world = 0;
                self.score = 0;
            }
            RouteAction::Press(Key::Space) => {
                if self.phase == GamePhase::Playing {
                    self.lift = 30;
                }
            }
            RouteAction::Tick => {
                if self.phase == GamePhase::Playing {
                    self.ticks += 1;
                    self.world += 1;
                    if self.lift > 0 {
                        self.lift -= 1;
                        self.height = 2.;
                    } else {
                        self.height = -1.;
                    }
                    if self.ticks == 200 {
                        self.score = 1;
                    }
                    if self.ticks == 420 {
                        self.phase = GamePhase::GameOver;
                    }
                }
            }
            _ => {}
        }
    }
}

fn run(mut toy: Toy) -> (RouteAction, usize) {
    let mut route = FlapRoute::new();
    let (mut initial, mut paused, mut ended) = (None, None, None);
    for steps in 0..20_000 {
        let action = route.next(&toy.observe(initial, paused, ended));
        match action {
            RouteAction::Capture(Snapshot::Initial) => initial = Some(toy.world),
            RouteAction::Capture(Snapshot::Paused) => paused = Some(toy.world),
            RouteAction::Capture(Snapshot::Ended) => ended = Some(toy.world),
            RouteAction::Pass | RouteAction::Fail(_) => return (action, steps),
            a => toy.act(a),
        }
    }
    panic!("route did not end");
}

#[test]
fn route_passes_a_well_behaved_game() {
    let (verdict, steps) = run(Toy { phase: GamePhase::Ready, score: 0, height: 0., ticks: 0, world: 0, lift: 0 });
    assert_eq!(verdict, RouteAction::Pass);
    assert!(steps < 19_000);
}

#[test]
fn route_fails_a_game_that_does_not_open_ready() {
    let (verdict, steps) = run(Toy { phase: GamePhase::Playing, score: 0, height: 0., ticks: 0, world: 0, lift: 0 });
    assert_eq!(verdict, RouteAction::Fail(RouteFailure::NotReady));
    assert_eq!(steps, 0);
    let (verdict, _) = run(Toy { phase: GamePhase::Ready, score: 3, height: 0., ticks: 0, world: 0, lift: 0 });
    assert_eq!(verdict, RouteAction::Fail(RouteFailure::NotReady));
}

#[test]
fn route_repeats_its_verdict() {
    let mut route = FlapRoute::new();
    let o = Observation {
        phase: GamePhase::Quit,
        score: "Score: 0".into(),
        bird_low: false,
        bird_high: false,
        same_as_initial: false,
        same_as_paused: false,
        same_as_ended: false,
    };
    assert_eq!(route.next(&o), RouteAction::Fail(RouteFailure::NotReady));
    assert_eq!(route.next(&o), RouteAction::Fail(RouteFailure::NotReady));
}

/// Drives the toy game and records every action the route gives, with the
/// toy's tick count at the moment the action was given.
fn trace(mut toy: Toy) -> Vec<(RouteAction, u32)> {
    let mut route = FlapRoute::new();
    let (mut initial, mut paused, mut ended) = (None, None, None);
    let mut actions = Vec::new();
    for _ in 0..20_000 {
        let action = route.next(&toy.observe(initial, paused, ended));
        actions.push((action, toy.ticks));
        match action {
            RouteAction::Capture(Snapshot::Initial) => initial = Some(toy.world),
            RouteAction::Capture(Snapshot::Paused) => paused = Some(toy.world),
            RouteAction::Capture(Snapshot::Ended) => ended = Some(toy.world),
            RouteAction::Pass | RouteAction::Fail(_) => return actions,
            a => toy.act(a),
        }
    }
    panic!("route did not end");
}

#[test]
fn route_follows_the_first_gap_for_exactly_250_ticks() {
    let actions = trace(Toy { phase: GamePhase::Ready, score: 0, height: 0., ticks: 0, world: 0, lift: 0 });
    let escape = actions
        .iter()
        .find(|(a, _)| *a == RouteAction::Press(Key::Escape))
        .expect("the route pauses");
    assert_eq!(escape.1, 250);
    assert_eq!(actions.last().unwrap().0, RouteAction::Pass);
}

#[test]
fn route_flaps_once_before_the_first_tick_when_the_bird_starts_low() {
    let actions = trace(Toy { phase: GamePhase::Ready, score: 0, height: -1., ticks: 0, world: 0, lift: 0 });
    let enter = actions
        .iter()
        .position(|(a, _)| *a == RouteAction::Press(Key::Enter))
        .expect("the route starts the game");
    assert_eq!(actions[enter + 1].0, RouteAction::Press(Key::Space));
    assert_eq!(actions[enter + 2].0, RouteAction::Tick);
    assert_eq!(actions.last().unwrap().0, RouteAction::Pass);
}
