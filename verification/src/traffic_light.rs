//! A traffic light whose colour is its type: only the legal transitions
//! exist, any light can be switched to flashing red, and an intersection
//! holds lights of different colours.

use vstd::prelude::*;
use crate::text::push_str;
use std::borrow::Cow;

verus! {

pub struct Red;

pub struct Green;

pub struct Yellow;

pub struct FlashingRed {
    reason: String,
}

/// A named light in state `S`.
pub struct TrafficLight<S> {
    name: String,
    state: S,
}

impl<S> TrafficLight<S> {
    pub closed spec fn name_view(&self) -> Seq<char> {
        self.name@
    }

    pub fn name(&self) -> (s: &str)
        ensures
            s@ == self.name_view(),
    {
        self.name.as_str()
    }
}

impl TrafficLight<FlashingRed> {
    pub closed spec fn reason_view(&self) -> Seq<char> {
        self.state.reason@
    }
}

impl TrafficLight<Red> {
    /// A new light, red.
    pub fn new(name: &str) -> (l: Self)
        ensures
            l.name_view() == name@,
    {
        TrafficLight { name: name.to_owned(), state: Red }
    }

    pub fn turn_green(self) -> (l: TrafficLight<Green>)
        ensures
            l.name_view() == self.name_view(),
    {
        TrafficLight { name: self.name, state: Green }
    }
}

impl TrafficLight<Green> {
    pub fn turn_yellow(self) -> (l: TrafficLight<Yellow>)
        ensures
            l.name_view() == self.name_view(),
    {
        TrafficLight { name: self.name, state: Yellow }
    }
}

impl TrafficLight<Yellow> {
    pub fn turn_red(self) -> (l: TrafficLight<Red>)
        ensures
            l.name_view() == self.name_view(),
    {
        TrafficLight { name: self.name, state: Red }
    }
}

impl TrafficLight<FlashingRed> {
    /// Leaves emergency mode; the light is red again.
    pub fn recover(self) -> (l: TrafficLight<Red>)
        ensures
            l.name_view() == self.name_view(),
    {
        TrafficLight { name: self.name, state: Red }
    }
}

/// Emergency mode: reachable from every state.
pub trait Emergency: Sized {
    spec fn light_name(&self) -> Seq<char>;

    fn emergency(self, reason: &str) -> (l: TrafficLight<FlashingRed>)
        ensures
            l.name_view() == self.light_name(),
            l.reason_view() == reason@,
    ;
}

impl<S> Emergency for TrafficLight<S> {
    open spec fn light_name(&self) -> Seq<char> {
        self.name_view()
    }

    fn emergency(self, reason: &str) -> (l: TrafficLight<FlashingRed>) {
        TrafficLight { name: self.name, state: FlashingRed { reason: reason.to_owned() } }
    }
}

/// What a light shows and whether traffic must stop.
pub trait LightStatus {
    spec fn status_text(&self) -> Seq<char>;

    spec fn stops(&self) -> bool;

    spec fn label(&self) -> Seq<char>;

    fn status_line(&self) -> (s: Cow<'_, str>)
        ensures
            s@ == self.status_text(),
    ;

    fn is_stop(&self) -> (b: bool)
        ensures
            b == self.stops(),
    ;

    /// `[NAME] STATUS`.
    fn display(&self) -> (s: String)
        ensures
            s@ == "["@ + self.label() + "] "@ + self.status_text(),
    ;
}

/// The text that a status holds, borrowed or owned.
fn cow_text<'a>(c: &'a Cow<'a, str>) -> (s: &'a str)
    ensures
        s@ == c@,
{
    match c {
        Cow::Borrowed(b) => b,
        Cow::Owned(o) => o.as_str(),
    }
}

fn bracketed(name: &str, status: &str) -> (s: String)
    ensures
        s@ == "["@ + name@ + "] "@ + status@,
{
    let mut s = String::new();
    push_str(&mut s, "[");
    push_str(&mut s, name);
    push_str(&mut s, "] ");
    push_str(&mut s, status);
    s
}

impl LightStatus for TrafficLight<Red> {
    open spec fn status_text(&self) -> Seq<char> {
        "RED — Stop"@
    }

    open spec fn stops(&self) -> bool {
        true
    }

    open spec fn label(&self) -> Seq<char> {
        self.name_view()
    }

    fn status_line(&self) -> (s: Cow<'_, str>) {
        Cow::Borrowed("RED — Stop")
    }

    fn is_stop(&self) -> (b: bool) {
        true
    }

    fn display(&self) -> (s: String) {
        let st = self.status_line();
        bracketed(self.name.as_str(), cow_text(&st))
    }
}

impl LightStatus for TrafficLight<Green> {
    open spec fn status_text(&self) -> Seq<char> {
        "GREEN — Go"@
    }

    open spec fn stops(&self) -> bool {
        false
    }

    open spec fn label(&self) -> Seq<char> {
        self.name_view()
    }

    fn status_line(&self) -> (s: Cow<'_, str>) {
        Cow::Borrowed("GREEN — Go")
    }

    fn is_stop(&self) -> (b: bool) {
        false
    }

    fn display(&self) -> (s: String) {
        let st = self.status_line();
        bracketed(self.name.as_str(), cow_text(&st))
    }
}

impl LightStatus for TrafficLight<Yellow> {
    open spec fn status_text(&self) -> Seq<char> {
        "YELLOW — Caution"@
    }

    open spec fn stops(&self) -> bool {
        true
    }

    open spec fn label(&self) -> Seq<char> {
        self.name_view()
    }

    fn status_line(&self) -> (s: Cow<'_, str>) {
        Cow::Borrowed("YELLOW — Caution")
    }

    fn is_stop(&self) -> (b: bool) {
        true
    }

    fn display(&self) -> (s: String) {
        let st = self.status_line();
        bracketed(self.name.as_str(), cow_text(&st))
    }
}

impl LightStatus for TrafficLight<FlashingRed> {
    open spec fn status_text(&self) -> Seq<char> {
        "FLASHING RED — Emergency: "@ + self.reason_view()
    }

    open spec fn stops(&self) -> bool {
        true
    }

    open spec fn label(&self) -> Seq<char> {
        self.name_view()
    }

    fn status_line(&self) -> (s: Cow<'_, str>) {
        let mut s = String::new();
        push_str(&mut s, "FLASHING RED — Emergency: ");
        push_str(&mut s, self.state.reason.as_str());
        Cow::Owned(s)
    }

    fn is_stop(&self) -> (b: bool) {
        true
    }

    fn display(&self) -> (s: String) {
        let st = self.status_line();
        bracketed(self.name.as_str(), cow_text(&st))
    }
}

/// A light in any of its states, so that lights of different colours can
/// be kept together.
pub enum Light {
    Red(TrafficLight<Red>),
    Green(TrafficLight<Green>),
    Yellow(TrafficLight<Yellow>),
    FlashingRed(TrafficLight<FlashingRed>),
}

impl LightStatus for Light {
    open spec fn status_text(&self) -> Seq<char> {
        match self {
            Light::Red(l) => l.status_text(),
            Light::Green(l) => l.status_text(),
            Light::Yellow(l) => l.status_text(),
            Light::FlashingRed(l) => l.status_text(),
        }
    }

    open spec fn stops(&self) -> bool {
        match self {
            Light::Red(l) => l.stops(),
            Light::Green(l) => l.stops(),
            Light::Yellow(l) => l.stops(),
            Light::FlashingRed(l) => l.stops(),
        }
    }

    open spec fn label(&self) -> Seq<char> {
        match self {
            Light::Red(l) => l.label(),
            Light::Green(l) => l.label(),
            Light::Yellow(l) => l.label(),
            Light::FlashingRed(l) => l.label(),
        }
    }

    fn status_line(&self) -> (s: Cow<'_, str>) {
        match self {
            Light::Red(l) => l.status_line(),
            Light::Green(l) => l.status_line(),
            Light::Yellow(l) => l.status_line(),
            Light::FlashingRed(l) => l.status_line(),
        }
    }

    fn is_stop(&self) -> (b: bool) {
        match self {
            Light::Red(l) => l.is_stop(),
            Light::Green(l) => l.is_stop(),
            Light::Yellow(l) => l.is_stop(),
            Light::FlashingRed(l) => l.is_stop(),
        }
    }

    fn display(&self) -> (s: String) {
        match self {
            Light::Red(l) => l.display(),
            Light::Green(l) => l.display(),
            Light::Yellow(l) => l.display(),
            Light::FlashingRed(l) => l.display(),
        }
    }
}

/// Lights of different colours at one crossing.
pub struct Intersection {
    lights: Vec<Light>,
}

impl Intersection {
    /// Whether each light, in the order added, tells traffic to stop.
    pub closed spec fn stops_view(&self) -> Seq<bool> {
        self.lights@.map_values(|l: Light| l.stops())
    }

    /// The `[NAME] STATUS` line of each light, in the order added.
    pub closed spec fn lines_view(&self) -> Seq<Seq<char>> {
        self.lights@.map_values(|l: Light| "["@ + l.label() + "] "@ + l.status_text())
    }

    pub fn new() -> (r: Self)
        ensures
            r.stops_view() == Seq::<bool>::empty(),
            r.lines_view() == Seq::<Seq<char>>::empty(),
    {
        Intersection { lights: Vec::new() }
    }

    pub fn add(&mut self, light: Light)
        ensures
            final(self).stops_view() == old(self).stops_view().push(light.stops()),
            final(self).lines_view() == old(self).lines_view().push("["@ + light.label() + "] "@ + light.status_text()),
    {
        let ghost l = light;
        self.lights.push(light);
        assert(self.stops_view() =~= old(self).stops_view().push(l.stops()));
        assert(self.lines_view() =~= old(self).lines_view().push("["@ + l.label() + "] "@ + l.status_text()));
    }

    /// Every light tells traffic to stop.
    pub fn all_stopped(&self) -> (b: bool)
        ensures
            b == forall|i: int| 0 <= i < self.stops_view().len() ==> #[trigger] self.stops_view()[i],
    {
        let mut i: usize = 0;
        while i < self.lights.len()
            invariant
                i <= self.lights.len(),
                forall|k: int| 0 <= k < i ==> #[trigger] self.stops_view()[k],
            decreases self.lights.len() - i,
        {
            let stop = self.lights[i].is_stop();
            assert(self.stops_view()[i as int] == self.lights@[i as int].stops());
            if !stop {
                return false;
            }
            i = i + 1;
        }
        true
    }

    /// The `[NAME] STATUS` line of every light, in the order added.
    pub fn report(&self) -> (r: Vec<String>)
        ensures
            r@.map_values(|s: String| s@) == self.lines_view(),
    {
        let mut r: Vec<String> = Vec::new();
        let mut i: usize = 0;
        while i < self.lights.len()
            invariant
                i <= self.lights.len(),
                r@.map_values(|s: String| s@) == self.lines_view().take(i as int),
            decreases self.lights.len() - i,
        {
            let line = self.lights[i].display();
            let ghost prev = r@;
            r.push(line);
            assert(r@.map_values(|s: String| s@) =~= prev.map_values(|s: String| s@).push(line@));
            assert(r@.map_values(|s: String| s@) =~= self.lines_view().take(i + 1));
            i = i + 1;
        }
        assert(self.lines_view().take(self.lights.len() as int) =~= self.lines_view());
        r
    }
}

/// The stop flags of `lights`, in order.
pub open spec fn stop_flags(lights: Seq<Light>) -> Seq<bool> {
    lights.map_values(|l: Light| l.stops())
}

proof fn lemma_stop_flags_after_adds(views: Seq<Seq<bool>>, lights: Seq<Light>, k: int)
    requires
        views.len() == lights.len() + 1,
        views[0] == Seq::<bool>::empty(),
        forall|i: int| 0 <= i < lights.len() ==> #[trigger] views[i + 1] == views[i].push(lights[i].stops()),
        0 <= k <= lights.len(),
    ensures
        views[k] == stop_flags(lights.take(k)),
    decreases k,
{
    if k == 0 {
        assert(stop_flags(lights.take(0)) =~= Seq::<bool>::empty());
    } else {
        lemma_stop_flags_after_adds(views, lights, k - 1);
        assert(views[k] == views[k - 1].push(lights[k - 1].stops()));
        assert(stop_flags(lights.take(k)) =~= stop_flags(lights.take(k - 1)).push(lights[k - 1].stops()));
    }
}

/// Adding lights one by one to a new crossing, `all_stopped` answers
/// whether every added light tells traffic to stop: true when none was
/// added, false once a green one was. `views[k]` is the crossing's stop
/// flags after `k` adds, as `new` and `add` state them.
pub proof fn law_all_stopped_after_adds(views: Seq<Seq<bool>>, lights: Seq<Light>)
    requires
        views.len() == lights.len() + 1,
        views[0] == Seq::<bool>::empty(),
        forall|k: int| 0 <= k < lights.len() ==> #[trigger] views[k + 1] == views[k].push(lights[k].stops()),
    ensures
        views.last() == stop_flags(lights),
        (forall|i: int| 0 <= i < views.last().len() ==> #[trigger] views.last()[i]) == (forall|j: int|
            0 <= j < lights.len() ==> #[trigger] lights[j].stops()),
        forall|j: int| 0 <= j < lights.len() && #[trigger] lights[j] is Green ==> !views.last()[j],
{
    lemma_stop_flags_after_adds(views, lights, lights.len() as int);
    assert(lights.take(lights.len() as int) =~= lights);
    let last = views.last();
    if forall|i: int| 0 <= i < last.len() ==> #[trigger] last[i] {
        assert forall|j: int| 0 <= j < lights.len() implies #[trigger] lights[j].stops() by {
            assert(last[j]);
        }
    }
    if forall|j: int| 0 <= j < lights.len() ==> #[trigger] lights[j].stops() {
        assert forall|i: int| 0 <= i < last.len() implies #[trigger] last[i] by {
            assert(lights[i].stops());
        }
    }
}

/// Every light but a green one tells traffic to stop: red, yellow and
/// flashing red all stop. A `Light` answers as the light it holds does,
/// and shows that light's name and status.
pub proof fn law_light_stops_unless_green(l: Light)
    ensures
        l.stops() == !(l is Green),
        match l {
            Light::Red(x) => l.stops() == x.stops() && l.label() == x.label() && l.status_text() == x.status_text(),
            Light::Green(x) => l.stops() == x.stops() && l.label() == x.label() && l.status_text() == x.status_text(),
            Light::Yellow(x) => l.stops() == x.stops() && l.label() == x.label() && l.status_text() == x.status_text(),
            Light::FlashingRed(x) => l.stops() == x.stops() && l.label() == x.label() && l.status_text()
                == x.status_text(),
        },
{
}

/// An intersection of lights none of which is green is all stopped.
pub proof fn law_no_green_all_stopped(views: Seq<Seq<bool>>, lights: Seq<Light>)
    requires
        views.len() == lights.len() + 1,
        views[0] == Seq::<bool>::empty(),
        forall|k: int| 0 <= k < lights.len() ==> #[trigger] views[k + 1] == views[k].push(lights[k].stops()),
        forall|j: int| 0 <= j < lights.len() ==> !(#[trigger] lights[j] is Green),
    ensures
        forall|i: int| 0 <= i < views.last().len() ==> #[trigger] views.last()[i],
{
    law_all_stopped_after_adds(views, lights);
    assert forall|j: int| 0 <= j < lights.len() implies #[trigger] lights[j].stops() by {
        law_light_stops_unless_green(lights[j]);
    }
}

} // verus!
