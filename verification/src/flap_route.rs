//! The Flap Woods acceptance route, as the decisions of a driver that plays
//! the exported game through its physical keys: open ready with zero score,
//! ignore flaps before Start, follow the first gap by flapping, score once,
//! pause and resume, die keeping the score, retry, restart and quit. The
//! driver performs each action on the running player and reports what it
//! then observes; this decides the next action or the verdict.
use vstd::prelude::*;
use vstd::string::*;
use crate::menu::GamePhase;

verus! {

#[derive(Clone, Copy, Debug, PartialEq, Eq, Structural)]
pub enum Key {
    Space,
    Enter,
    Escape,
    KeyR,
    KeyQ,
}

/// The world captures the route compares against.
#[derive(Clone, Copy, Debug, PartialEq, Eq, Structural)]
pub enum Snapshot {
    Initial,
    Paused,
    Ended,
}

/// Why the route failed.
#[derive(Clone, Copy, Debug, PartialEq, Eq, Structural)]
pub enum RouteFailure {
    /// "game must open ready with zero score"
    NotReady,
    /// "ready game advanced"
    ReadyAdvanced,
    /// "Enter did not start"
    EnterDidNotStart,
    /// "flap route died before clearing the first pipe"
    RouteDied,
    /// "first cleared pipe did not score exactly once"
    ScoreNotOne,
    /// "Escape did not pause"
    EscapeDidNotPause,
    /// "paused world changed"
    PausedWorldChanged,
    /// "Escape did not resume"
    EscapeDidNotResume,
    /// "death must retain final score"
    DeathLostScore,
    /// "game-over world changed"
    GameOverWorldChanged,
    /// "retry did not reset the complete game"
    RetryDidNotReset,
    /// "retry did not restore flap input"
    RetryLostFlap,
    /// "R restart did not reset"
    RestartDidNotReset,
    /// "Quit did not end the session"
    QuitDidNotEnd,
}

/// What the driver does next.
#[derive(Clone, Copy, Debug, PartialEq, Eq, Structural)]
pub enum RouteAction {
    /// Capture the world under this name.
    Capture(Snapshot),
    /// Give the gameplay controls window focus.
    Focus,
    /// Press and release a physical key.
    Press(Key),
    /// Step the simulation once.
    Tick,
    /// The route passed.
    Pass,
    /// The route failed.
    Fail(RouteFailure),
}

/// What the driver sees of the game after its last action.
pub struct Observation {
    pub phase: GamePhase,
    /// The score HUD text.
    pub score: String,
    /// The bird is below the flap line (height under -0.4).
    pub bird_low: bool,
    /// The bird is above height 1.
    pub bird_high: bool,
    pub same_as_initial: bool,
    pub same_as_paused: bool,
    pub same_as_ended: bool,
}

/// The plain facts of an observation the decisions read.
pub struct Seen {
    pub phase: GamePhase,
    pub zero_score: bool,
    pub one_point: bool,
    pub bird_low: bool,
    pub bird_high: bool,
    pub same_as_initial: bool,
    pub same_as_paused: bool,
    pub same_as_ended: bool,
}

pub open spec fn seen(o: Observation) -> Seen {
    Seen {
        phase: o.phase,
        zero_score: o.score@ == "Score: 0"@,
        one_point: o.score@ == "Score: 1"@,
        bird_low: o.bird_low,
        bird_high: o.bird_high,
        same_as_initial: o.same_as_initial,
        same_as_paused: o.same_as_paused,
        same_as_ended: o.same_as_ended,
    }
}

/// Route progress: the stage, the count within it, and the verdict once given.
pub struct FlapRoute {
    pub stage: u32,
    pub count: u32,
    pub verdict: Option<RouteAction>,
}

/// The decision table. Stage 3 waits 30 ticks after a flap in Ready; stages
/// 6 and 7 follow the gap for 250 ticks, flapping when the bird is low; stage
/// 10 waits 60 paused ticks, stage 12 runs 180 ticks into the pipe, stage 13
/// waits 60 game-over ticks and stage 15 gives a flap 20 ticks.
pub open spec fn route_step(stage: u32, count: u32, s: Seen) -> (u32, u32, RouteAction) {
    if stage == 0 {
        if !(s.phase == GamePhase::Ready && s.zero_score) { (19, 0, RouteAction::Fail(RouteFailure::NotReady)) }
        else { (1, 0, RouteAction::Capture(Snapshot::Initial)) }
    } else if stage == 1 {
        (2, 0, RouteAction::Focus)
    } else if stage == 2 {
        (3, 0, RouteAction::Press(Key::Space))
    } else if stage == 3 {
        if count < 30 { (3, (count + 1) as u32, RouteAction::Tick) }
        else if !s.same_as_initial { (19, 0, RouteAction::Fail(RouteFailure::ReadyAdvanced)) }
        else { (5, 0, RouteAction::Press(Key::Enter)) }
    } else if stage == 5 {
        if s.phase != GamePhase::Playing { (19, 0, RouteAction::Fail(RouteFailure::EnterDidNotStart)) }
        else if s.bird_low { (7, 0, RouteAction::Press(Key::Space)) }
        else { (6, 1, RouteAction::Tick) }
    } else if stage == 6 || stage == 7 {
        if stage == 7 {
            (6, (count + 1) as u32, RouteAction::Tick)
        } else if s.phase != GamePhase::Playing {
            (19, 0, RouteAction::Fail(RouteFailure::RouteDied))
        } else if count >= 250 {
            if !s.one_point { (19, 0, RouteAction::Fail(RouteFailure::ScoreNotOne)) }
            else { (8, 0, RouteAction::Press(Key::Escape)) }
        } else if s.bird_low {
            (7, count, RouteAction::Press(Key::Space))
        } else {
            (6, (count + 1) as u32, RouteAction::Tick)
        }
    } else if stage == 8 {
        if s.phase != GamePhase::Paused { (19, 0, RouteAction::Fail(RouteFailure::EscapeDidNotPause)) }
        else { (9, 0, RouteAction::Capture(Snapshot::Paused)) }
    } else if stage == 9 {
        (10, 0, RouteAction::Press(Key::Space))
    } else if stage == 10 {
        if count < 60 { (10, (count + 1) as u32, RouteAction::Tick) }
        else if !s.same_as_paused { (19, 0, RouteAction::Fail(RouteFailure::PausedWorldChanged)) }
        else { (11, 0, RouteAction::Press(Key::Escape)) }
    } else if stage == 11 {
        if s.phase != GamePhase::Playing { (19, 0, RouteAction::Fail(RouteFailure::EscapeDidNotResume)) }
        else { (12, 1, RouteAction::Tick) }
    } else if stage == 12 {
        if count < 180 { (12, (count + 1) as u32, RouteAction::Tick) }
        else if !(s.phase == GamePhase::GameOver && s.one_point) { (19, 0, RouteAction::Fail(RouteFailure::DeathLostScore)) }
        else { (13, 0, RouteAction::Capture(Snapshot::Ended)) }
    } else if stage == 13 {
        if count < 60 { (13, (count + 1) as u32, RouteAction::Tick) }
        else if !s.same_as_ended { (19, 0, RouteAction::Fail(RouteFailure::GameOverWorldChanged)) }
        else { (14, 0, RouteAction::Press(Key::Enter)) }
    } else if stage == 14 {
        if !(s.phase == GamePhase::Playing && s.same_as_initial) { (19, 0, RouteAction::Fail(RouteFailure::RetryDidNotReset)) }
        else { (15, 0, RouteAction::Press(Key::Space)) }
    } else if stage == 15 {
        if count < 20 { (15, (count + 1) as u32, RouteAction::Tick) }
        else if !s.bird_high { (19, 0, RouteAction::Fail(RouteFailure::RetryLostFlap)) }
        else { (16, 0, RouteAction::Press(Key::KeyR)) }
    } else if stage == 16 {
        if !s.same_as_initial { (19, 0, RouteAction::Fail(RouteFailure::RestartDidNotReset)) }
        else { (17, 0, RouteAction::Press(Key::Escape)) }
    } else if stage == 17 {
        (18, 0, RouteAction::Press(Key::KeyQ))
    } else if stage == 18 {
        if s.phase != GamePhase::Quit { (19, 0, RouteAction::Fail(RouteFailure::QuitDidNotEnd)) }
        else { (19, 0, RouteAction::Pass) }
    } else {
        (19, 0, RouteAction::Pass)
    }
}

pub open spec fn is_verdict(a: RouteAction) -> bool {
    a is Pass || a is Fail
}

/// An upper bound on the actions left before the verdict.
pub open spec fn route_measure(stage: u32, count: u32) -> int {
    let budget = if stage == 6 {
        2 * (250 - count) + 1
    } else if stage == 7 {
        2 * (250 - count)
    } else if stage == 3 {
        30 - count
    } else if stage == 10 || stage == 13 {
        60 - count
    } else if stage == 12 {
        180 - count
    } else if stage == 15 {
        20 - count
    } else {
        0
    };
    let place: int = if stage == 7 { 6 } else { stage as int };
    (19 - place) * 1000 + budget
}

pub open spec fn count_in_range(stage: u32, count: u32) -> bool {
    &&& stage == 3 ==> count <= 30
    &&& (stage == 6 || stage == 7) ==> count <= 250
    &&& (stage == 7) ==> count < 250
    &&& (stage == 10 || stage == 13) ==> count <= 60
    &&& stage == 12 ==> count <= 180
    &&& stage == 15 ==> count <= 20
    &&& stage <= 19
    &&& stage != 4
}

/// Every decision before the verdict makes progress, so whatever the game
/// does the route reaches its verdict within 19 000 actions; after the
/// verdict it keeps giving `Pass`.
pub proof fn lemma_route_progress(stage: u32, count: u32, s: Seen)
    requires
        count_in_range(stage, count),
    ensures
        count_in_range(route_step(stage, count, s).0, route_step(stage, count, s).1),
        stage < 19 ==> (is_verdict(route_step(stage, count, s).2) || route_measure(route_step(stage, count, s).0, route_step(stage, count, s).1) < route_measure(stage, count)),
        stage < 19 ==> route_measure(stage, count) <= 19000,
        is_verdict(route_step(stage, count, s).2) <==> route_step(stage, count, s).0 == 19,
{
    let r = route_step(stage, count, s);
    if stage == 6 {
        assert(route_measure(6, count) == 13000 + 2 * (250 - count) + 1);
    } else if stage == 7 {
        assert(route_measure(7, count) == 13000 + 2 * (250 - count));
        assert(count < 250);
        assert(route_measure(6, (count + 1) as u32) == 13000 + 2 * (250 - (count + 1)) + 1);
    } else if stage == 3 {
        assert(route_measure(3, count) == 16000 + 30 - count);
    } else if stage == 12 {
        assert(route_measure(12, count) == 7000 + 180 - count);
    } else if stage == 11 {
        assert(route_measure(12, 1) == 7179);
    }
}

/// What each check of the route demands of the game, stated over what the
/// driver observes: every check that the observation breaks ends the route
/// with that check's failure, each wait lasts its number of ticks, the route
/// never goes back but from a flap to the next tick, it gets past the game
/// over only with one point on the board and past the first gap only after
/// 250 ticks with one point, and it passes only when the session has quit.
pub proof fn lemma_route_checks(stage: u32, count: u32, o: Observation)
    requires
        count_in_range(stage, count),
    ensures
        ({
            let (next, next_count, act) = route_step(stage, count, seen(o));
            let fail = |f: RouteFailure| next == 19 && act == RouteAction::Fail(f);
            &&& stage == 0 && !(o.phase == GamePhase::Ready && o.score@ == "Score: 0"@) ==> fail(RouteFailure::NotReady)
            &&& stage == 0 && o.phase == GamePhase::Ready && o.score@ == "Score: 0"@
                ==> act == RouteAction::Capture(Snapshot::Initial)
            &&& stage == 3 && count < 30 ==> next == 3 && next_count == count + 1 && act == RouteAction::Tick
            &&& stage == 3 && count >= 30 && !o.same_as_initial ==> fail(RouteFailure::ReadyAdvanced)
            &&& stage == 5 && o.phase != GamePhase::Playing ==> fail(RouteFailure::EnterDidNotStart)
            &&& stage == 5 && o.phase == GamePhase::Playing && o.bird_low ==> act == RouteAction::Press(Key::Space)
            &&& stage == 5 && o.phase == GamePhase::Playing && !o.bird_low ==> act == RouteAction::Tick && next_count == 1
            &&& stage == 6 && o.phase != GamePhase::Playing ==> fail(RouteFailure::RouteDied)
            &&& stage == 6 && o.phase == GamePhase::Playing && count >= 250 && o.score@ != "Score: 1"@
                ==> fail(RouteFailure::ScoreNotOne)
            &&& stage == 6 && o.phase == GamePhase::Playing && count < 250 && o.bird_low
                ==> act == RouteAction::Press(Key::Space) && next_count == count
            &&& stage == 6 && o.phase == GamePhase::Playing && count < 250 && !o.bird_low
                ==> act == RouteAction::Tick && next_count == count + 1
            &&& stage == 7 ==> act == RouteAction::Tick && next == 6 && next_count == count + 1
            &&& stage == 8 && o.phase != GamePhase::Paused ==> fail(RouteFailure::EscapeDidNotPause)
            &&& stage == 10 && count < 60 ==> next == 10 && next_count == count + 1 && act == RouteAction::Tick
            &&& stage == 10 && count >= 60 && !o.same_as_paused ==> fail(RouteFailure::PausedWorldChanged)
            &&& stage == 11 && o.phase != GamePhase::Playing ==> fail(RouteFailure::EscapeDidNotResume)
            &&& stage == 12 && count < 180 ==> next == 12 && next_count == count + 1 && act == RouteAction::Tick
            &&& stage == 12 && count >= 180 && !(o.phase == GamePhase::GameOver && o.score@ == "Score: 1"@)
                ==> fail(RouteFailure::DeathLostScore)
            &&& stage == 13 && count < 60 ==> next == 13 && next_count == count + 1 && act == RouteAction::Tick
            &&& stage == 13 && count >= 60 && !o.same_as_ended ==> fail(RouteFailure::GameOverWorldChanged)
            &&& stage == 14 && !(o.phase == GamePhase::Playing && o.same_as_initial) ==> fail(RouteFailure::RetryDidNotReset)
            &&& stage == 15 && count < 20 ==> next == 15 && next_count == count + 1 && act == RouteAction::Tick
            &&& stage == 15 && count >= 20 && !o.bird_high ==> fail(RouteFailure::RetryLostFlap)
            &&& stage == 16 && !o.same_as_initial ==> fail(RouteFailure::RestartDidNotReset)
            &&& stage == 18 && o.phase != GamePhase::Quit ==> fail(RouteFailure::QuitDidNotEnd)
            &&& stage < 19 && act == RouteAction::Pass ==> stage == 18 && o.phase == GamePhase::Quit
            &&& next >= stage || (stage == 7 && next == 6)
            &&& stage <= 12 && 12 < next < 19 ==> stage == 12 && o.phase == GamePhase::GameOver && o.score@ == "Score: 1"@
            &&& stage <= 6 && 6 < next < 19 && next != 7 ==> stage == 6 && o.phase == GamePhase::Playing
                && o.score@ == "Score: 1"@ && count >= 250
        }),
{
}

impl FlapRoute {
    pub fn new() -> (r: FlapRoute)
        ensures
            r.stage == 0 && r.count == 0 && r.verdict is None,
    {
        FlapRoute { stage: 0, count: 0, verdict: None }
    }

    /// The next action given the latest observation. Once the verdict is
    /// given it is repeated.
    pub fn next(&mut self, o: &Observation) -> (r: RouteAction)
        requires
            count_in_range(old(self).stage, old(self).count),
        ensures
            old(self).verdict matches Some(v) ==> r == v && *final(self) == *old(self),
            old(self).verdict is None ==> ({
                let (stage, count, action) = route_step(old(self).stage, old(self).count, seen(*o));
                &&& r == action
                &&& final(self).stage == stage
                &&& final(self).count == count
                &&& final(self).verdict == (if is_verdict(action) { Some(action) } else { None })
            }),
            count_in_range(final(self).stage, final(self).count),
    {
        if let Some(v) = self.verdict {
            return v;
        }
        proof {
            reveal_strlit("Score: 0");
            reveal_strlit("Score: 1");
        }
        let zero_score = crate::text::str_equal(o.score.as_str(), "Score: 0");
        let one_point = crate::text::str_equal(o.score.as_str(), "Score: 1");
        let stage = self.stage;
        let count = self.count;
        let phase = o.phase;
        let (stage2, count2, action): (u32, u32, RouteAction) = if stage == 0 {
            if !(phase == GamePhase::Ready && zero_score) { (19, 0, RouteAction::Fail(RouteFailure::NotReady)) }
            else { (1, 0, RouteAction::Capture(Snapshot::Initial)) }
        } else if stage == 1 {
            (2, 0, RouteAction::Focus)
        } else if stage == 2 {
            (3, 0, RouteAction::Press(Key::Space))
        } else if stage == 3 {
            if count < 30 { (3, count + 1, RouteAction::Tick) }
            else if !o.same_as_initial { (19, 0, RouteAction::Fail(RouteFailure::ReadyAdvanced)) }
            else { (5, 0, RouteAction::Press(Key::Enter)) }
        } else if stage == 5 {
            if phase != GamePhase::Playing { (19, 0, RouteAction::Fail(RouteFailure::EnterDidNotStart)) }
            else if o.bird_low { (7, 0, RouteAction::Press(Key::Space)) }
            else { (6, 1, RouteAction::Tick) }
        } else if stage == 6 || stage == 7 {
            if stage == 7 {
                (6, count + 1, RouteAction::Tick)
            } else if phase != GamePhase::Playing {
                (19, 0, RouteAction::Fail(RouteFailure::RouteDied))
            } else if count >= 250 {
                if !one_point { (19, 0, RouteAction::Fail(RouteFailure::ScoreNotOne)) }
                else { (8, 0, RouteAction::Press(Key::Escape)) }
            } else if o.bird_low {
                (7, count, RouteAction::Press(Key::Space))
            } else {
                (6, count + 1, RouteAction::Tick)
            }
        } else if stage == 8 {
            if phase != GamePhase::Paused { (19, 0, RouteAction::Fail(RouteFailure::EscapeDidNotPause)) }
            else { (9, 0, RouteAction::Capture(Snapshot::Paused)) }
        } else if stage == 9 {
            (10, 0, RouteAction::Press(Key::Space))
        } else if stage == 10 {
            if count < 60 { (10, count + 1, RouteAction::Tick) }
            else if !o.same_as_paused { (19, 0, RouteAction::Fail(RouteFailure::PausedWorldChanged)) }
            else { (11, 0, RouteAction::Press(Key::Escape)) }
        } else if stage == 11 {
            if phase != GamePhase::Playing { (19, 0, RouteAction::Fail(RouteFailure::EscapeDidNotResume)) }
            else { (12, 1, RouteAction::Tick) }
        } else if stage == 12 {
            if count < 180 { (12, count + 1, RouteAction::Tick) }
            else if !(phase == GamePhase::GameOver && one_point) { (19, 0, RouteAction::Fail(RouteFailure::DeathLostScore)) }
            else { (13, 0, RouteAction::Capture(Snapshot::Ended)) }
        } else if stage == 13 {
            if count < 60 { (13, count + 1, RouteAction::Tick) }
            else if !o.same_as_ended { (19, 0, RouteAction::Fail(RouteFailure::GameOverWorldChanged)) }
            else { (14, 0, RouteAction::Press(Key::Enter)) }
        } else if stage == 14 {
            if !(phase == GamePhase::Playing && o.same_as_initial) { (19, 0, RouteAction::Fail(RouteFailure::RetryDidNotReset)) }
            else { (15, 0, RouteAction::Press(Key::Space)) }
        } else if stage == 15 {
            if count < 20 { (15, count + 1, RouteAction::Tick) }
            else if !o.bird_high { (19, 0, RouteAction::Fail(RouteFailure::RetryLostFlap)) }
            else { (16, 0, RouteAction::Press(Key::KeyR)) }
        } else if stage == 16 {
            if !o.same_as_initial { (19, 0, RouteAction::Fail(RouteFailure::RestartDidNotReset)) }
            else { (17, 0, RouteAction::Press(Key::Escape)) }
        } else if stage == 17 {
            (18, 0, RouteAction::Press(Key::KeyQ))
        } else if stage == 18 {
            if phase != GamePhase::Quit { (19, 0, RouteAction::Fail(RouteFailure::QuitDidNotEnd)) }
            else { (19, 0, RouteAction::Pass) }
        } else {
            (19, 0, RouteAction::Pass)
        };
        proof {
            lemma_route_progress(stage, count, seen(*o));
        }
        self.stage = stage2;
        self.count = count2;
        let done = match action {
            RouteAction::Pass | RouteAction::Fail(_) => true,
            _ => false,
        };
        if done {
            self.verdict = Some(action);
        }
        action
    }
}

} // verus!
