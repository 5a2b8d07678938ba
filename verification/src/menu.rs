//! The game-flow menu overlay shared by native and embedded Play: which
//! texts it shows in each phase, in drawing order, each behind four
//! one-direction shadows. Fonts, colors and pixel layout are the renderer's.
use vstd::prelude::*;
use vstd::string::*;

verus! {

#[derive(Clone, Copy, Debug, PartialEq, Eq, Structural)]
pub enum GamePhase {
    Ready,
    Playing,
    Paused,
    GameOver,
    Quit,
}

/// What a menu text is: the title, the message under it, or button `i`.
#[derive(Clone, Copy, Debug, PartialEq, Eq, Structural)]
pub enum LabelRole {
    Title,
    Message,
    Button(usize),
}

/// The direction a shadow copy is displaced by two pixels.
#[derive(Clone, Copy, Debug, PartialEq, Eq, Structural)]
pub enum Shadow {
    Left,
    Right,
    Up,
    Down,
}

/// One text to draw: a shadow copy (in black) or the text itself.
#[derive(Clone, Debug, PartialEq)]
pub struct MenuItem {
    pub text: String,
    pub role: LabelRole,
    pub shadow: Option<Shadow>,
}

/// The title of a phase that shows one: the game's own title when Ready.
pub open spec fn phase_title(phase: GamePhase, title: Seq<char>) -> Seq<char> {
    match phase {
        GamePhase::Ready => title,
        GamePhase::Paused => "Paused"@,
        _ => "Game over"@,
    }
}

/// The menu's labels: outside Playing and Quit a title and a message (the
/// instructions when Ready, the session's message otherwise); then every button.
pub open spec fn menu_labels(
    phase: GamePhase,
    title: Seq<char>,
    instructions: Seq<char>,
    message: Seq<char>,
    buttons: Seq<Seq<char>>,
) -> Seq<(Seq<char>, LabelRole)> {
    let head = if phase != GamePhase::Playing && phase != GamePhase::Quit {
        seq![
            (phase_title(phase, title), LabelRole::Title),
            (if phase == GamePhase::Ready { instructions } else { message }, LabelRole::Message),
        ]
    } else {
        Seq::empty()
    };
    head + Seq::new(buttons.len(), |i: int| (buttons[i], LabelRole::Button(i as usize)))
}

pub open spec fn shadow_order(k: int) -> Shadow {
    if k == 0 { Shadow::Left } else if k == 1 { Shadow::Right } else if k == 2 { Shadow::Up } else { Shadow::Down }
}

/// Each label drawn as its four shadows, left, right, up, down, then itself.
pub open spec fn menu_items(labels: Seq<(Seq<char>, LabelRole)>) -> Seq<(Seq<char>, LabelRole, Option<Shadow>)> {
    Seq::new(labels.len() * 5, |i: int| {
        let l = labels[i / 5];
        (l.0, l.1, if i % 5 < 4 { Some(shadow_order(i % 5)) } else { None })
    })
}

pub open spec fn item_views(items: Seq<MenuItem>) -> Seq<(Seq<char>, LabelRole, Option<Shadow>)> {
    items.map_values(|m: MenuItem| (m.text@, m.role, m.shadow))
}

pub open spec fn string_views(v: Seq<String>) -> Seq<Seq<char>> {
    v.map_values(|s: String| s@)
}

/// The menu draws each label as four shadows (left, right, up, down) and then
/// the text itself. Outside Playing and Quit the first label is the title
/// ("Paused", "Game over", or the game's own title when Ready) and the second
/// the message (the instructions when Ready); button `b` follows as label
/// `h + b`, with its own text and role `Button(b)`.
pub proof fn lemma_menu_layout(
    phase: GamePhase,
    title: Seq<char>,
    instructions: Seq<char>,
    message: Seq<char>,
    buttons: Seq<Seq<char>>,
    b: int,
)
    requires
        0 <= b < buttons.len(),
        b <= usize::MAX,
    ensures
        ({
            let items = menu_items(menu_labels(phase, title, instructions, message, buttons));
            let h: int = if phase == GamePhase::Playing || phase == GamePhase::Quit { 0 } else { 2 };
            &&& items.len() == 5 * (h + buttons.len())
            &&& forall|i: int| 0 <= i < items.len() ==> (#[trigger] items[i]).2 == (if i % 5 == 0 {
                Some(Shadow::Left)
            } else if i % 5 == 1 {
                Some(Shadow::Right)
            } else if i % 5 == 2 {
                Some(Shadow::Up)
            } else if i % 5 == 3 {
                Some(Shadow::Down)
            } else {
                None
            })
            &&& phase == GamePhase::Ready ==> items[4] == (title, LabelRole::Title, None::<Shadow>)
                && items[9] == (instructions, LabelRole::Message, None::<Shadow>)
            &&& phase == GamePhase::Paused ==> items[4] == ("Paused"@, LabelRole::Title, None::<Shadow>)
                && items[9] == (message, LabelRole::Message, None::<Shadow>)
            &&& phase == GamePhase::GameOver ==> items[4] == ("Game over"@, LabelRole::Title, None::<Shadow>)
                && items[9] == (message, LabelRole::Message, None::<Shadow>)
            &&& items[5 * (h + b) + 4] == (buttons[b], LabelRole::Button(b as usize), None::<Shadow>)
        }),
{
    let labels = menu_labels(phase, title, instructions, message, buttons);
    let h: int = if phase == GamePhase::Playing || phase == GamePhase::Quit { 0 } else { 2 };
    assert(labels.len() == h + buttons.len());
    let x = 5 * (h + b) + 4;
    assert(x / 5 == h + b && x % 5 == 4) by (nonlinear_arith)
        requires
            x == 5 * (h + b) + 4,
            h + b >= 0,
    ;
    assert(labels[h + b] == (buttons[b], LabelRole::Button(b as usize)));
    assert(labels.len() * 5 == 5 * (h + buttons.len())) by (nonlinear_arith)
        requires
            labels.len() == h + buttons.len(),
    ;
    assert(x < labels.len() * 5) by (nonlinear_arith)
        requires
            x == 5 * (h + b) + 4,
            h + b < labels.len(),
    ;
}

fn push_label(items: &mut Vec<MenuItem>, text: &str, role: LabelRole)
    ensures
        final(items)@.len() == old(items)@.len() + 5,
        forall|i: int| 0 <= i < old(items)@.len() ==> final(items)@[i] == old(items)@[i],
        forall|k: int| 0 <= k < 5 ==> {
            let m = #[trigger] final(items)@[old(items)@.len() + k];
            m.text@ == text@ && m.role == role && m.shadow == (if k < 4 { Some(shadow_order(k)) } else { None })
        },
{
    items.push(MenuItem { text: String::from_str(text), role, shadow: Some(Shadow::Left) });
    items.push(MenuItem { text: String::from_str(text), role, shadow: Some(Shadow::Right) });
    items.push(MenuItem { text: String::from_str(text), role, shadow: Some(Shadow::Up) });
    items.push(MenuItem { text: String::from_str(text), role, shadow: Some(Shadow::Down) });
    items.push(MenuItem { text: String::from_str(text), role, shadow: None });
}

/// The menu overlay's texts for `phase`, in drawing order.
pub fn game_menu(phase: GamePhase, title: &str, instructions: &str, message: &str, buttons: &Vec<String>) -> (r: Vec<MenuItem>)
    requires
        buttons@.len() * 5 + 10 <= usize::MAX,
    ensures
        item_views(r@) == menu_items(menu_labels(phase, title@, instructions@, message@, string_views(buttons@))),
{
    let ghost labels = menu_labels(phase, title@, instructions@, message@, string_views(buttons@));
    let ghost want = menu_items(labels);
    let mut items: Vec<MenuItem> = Vec::new();
    let shows_head = phase != GamePhase::Playing && phase != GamePhase::Quit;
    if shows_head {
        let heading: &str = match phase {
            GamePhase::Ready => title,
            GamePhase::Paused => "Paused",
            _ => "Game over",
        };
        push_label(&mut items, heading, LabelRole::Title);
        let body: &str = if phase == GamePhase::Ready { instructions } else { message };
        push_label(&mut items, body, LabelRole::Message);
    }
    let ghost h: int = if shows_head { 2 } else { 0 };
    assert(labels.len() == h + buttons@.len());
    assert forall|i: int| 0 <= i < items@.len() implies #[trigger] item_views(items@)[i] == want[i] by {
        if i < 5 {
            assert(i / 5 == 0 && i % 5 == i);
            assert(items@[0 + i] == items@[i]);
        } else {
            assert(i / 5 == 1 && i % 5 == i - 5);
            assert(items@[5 + (i - 5)] == items@[i]);
        }
    }
    let mut b: usize = 0;
    while b < buttons.len()
        invariant
            b <= buttons@.len(),
            buttons@.len() * 5 + 10 <= usize::MAX,
            labels == menu_labels(phase, title@, instructions@, message@, string_views(buttons@)),
            want == menu_items(labels),
            labels.len() == h + buttons@.len(),
            0 <= h <= 2,
            items@.len() == (h + b) * 5,
            forall|i: int| 0 <= i < items@.len() ==> #[trigger] item_views(items@)[i] == want[i],
        decreases buttons@.len() - b,
    {
        let ghost before = items@;
        push_label(&mut items, buttons[b].as_str(), LabelRole::Button(b));
        assert forall|i: int| 0 <= i < items@.len() implies #[trigger] item_views(items@)[i] == want[i] by {
            if i < before.len() {
                assert(items@[i] == before[i]);
                assert(item_views(before)[i] == want[i]);
            } else {
                let k = i - before.len();
                assert(items@[before.len() + k] == items@[i]);
                assert(i / 5 == h + b);
                assert(i % 5 == k);
                assert(labels[h + b] == (string_views(buttons@)[b as int], LabelRole::Button(b)));
            }
        }
        b = b + 1;
    }
    assert(item_views(items@) =~= want);
    items
}

} // verus!
