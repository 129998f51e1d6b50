//! What the user interface shows while connecting, and the switches of the
//! map editor's bottom panel.
use crate::legacy::input::duration_nanos;
use crate::text::{append, decimal, format_decimal};
use std::time::Duration;
use vstd::prelude::*;

verus! {

/// `Duration::from_secs` makes a duration of whole seconds.
pub assume_specification[ Duration::from_secs ](secs: u64) -> (d: Duration)
    ensures
        duration_nanos(d) == secs * 1_000_000_000,
;

/// The seconds that the rest of a download takes, rounded up. Without any
/// speed there is no estimate.
pub open spec fn seconds_left(downloaded: u64, total: u64, speed: u64) -> Option<int> {
    if speed == 0 {
        None
    } else if downloaded >= total {
        Some(0)
    } else {
        Some((total - downloaded + speed - 1) / speed as int)
    }
}

/// The seconds that the rest of a download takes.
fn remaining_seconds(downloaded: u64, total: u64, speed: u64) -> (r: Option<u64>)
    ensures
        match seconds_left(downloaded, total, speed) {
            Some(secs) => r == Some(secs as u64) && secs <= u64::MAX,
            None => r is None,
        },
{
    if speed == 0 {
        return None;
    }
    if downloaded >= total {
        return Some(0);
    }
    let remaining: u64 = total - downloaded;
    let whole: u64 = remaining / speed;
    let rest: u64 = remaining % speed;
    proof {
        vstd::arithmetic::div_mod::lemma_fundamental_div_mod(remaining as int, speed as int);
        let q = whole as int;
        let d = speed as int;
        assert(q <= remaining) by (nonlinear_arith)
            requires
                remaining == d * q + rest,
                d >= 1,
                rest >= 0,
                q >= 0,
        ;
        if rest > 0 {
            assert(q < remaining) by (nonlinear_arith)
                requires
                    remaining == d * q + rest,
                    d >= 1,
                    rest >= 1,
                    q >= 0,
            ;
            assert(d * q + rest + d - 1 == d * (q + 1) + (rest - 1)) by (nonlinear_arith);
            vstd::arithmetic::div_mod::lemma_fundamental_div_mod_converse(
                remaining + d - 1,
                d,
                q + 1,
                rest - 1,
            );
        } else {
            assert(d * q + d - 1 == d * q + (d - 1));
            vstd::arithmetic::div_mod::lemma_fundamental_div_mod_converse(
                remaining + d - 1,
                d,
                q,
                d - 1,
            );
        }
    }
    if rest > 0 {
        Some(whole + 1)
    } else {
        Some(whole)
    }
}

/// Estimates how long the rest of a download takes.
///
/// - `downloaded_bytes`: how many bytes have been downloaded so far
/// - `total_download_bytes`: the final size in bytes
/// - `download_speed_bytes_per_second`: the current speed
///
/// Returns `None` if there is no sane estimate, as at speed zero.
pub fn estimate_time_remaining(
    downloaded_bytes: u64,
    total_download_bytes: u64,
    download_speed_bytes_per_second: u64,
) -> (r: Option<Duration>)
    ensures
        match seconds_left(
            downloaded_bytes,
            total_download_bytes,
            download_speed_bytes_per_second,
        ) {
            Some(secs) => r matches Some(d) && duration_nanos(d) == secs * 1_000_000_000,
            None => r is None,
        },
{
    match remaining_seconds(
        downloaded_bytes,
        total_download_bytes,
        download_speed_bytes_per_second,
    ) {
        Some(secs) => Some(Duration::from_secs(secs)),
        None => None,
    }
}

/// The estimate never promises too little: at this speed, the rest has
/// arrived after that time, and not a second before it.
pub proof fn estimate_is_tight(downloaded: u64, total: u64, speed: u64)
    requires
        speed > 0,
        downloaded < total,
    ensures
        seconds_left(downloaded, total, speed)->0 * speed >= total - downloaded,
        (seconds_left(downloaded, total, speed)->0 - 1) * speed < total - downloaded,
{
    let rest = total - downloaded;
    let d = speed as int;
    let n = rest + d - 1;
    let q = n / d;
    vstd::arithmetic::div_mod::lemma_fundamental_div_mod(n, d);
    let r = n % d;
    assert(q * d >= rest) by (nonlinear_arith)
        requires
            n == d * q + r,
            r < d,
            n == rest + d - 1,
    ;
    assert((q - 1) * d < rest) by (nonlinear_arith)
        requires
            n == d * q + r,
            r >= 0,
            n == rest + d - 1,
    ;
}

/// The line that shows the progress of a download.
pub open spec fn progress_text(downloaded: u64, total: u64, speed: u64) -> Seq<char> {
    let secs = match seconds_left(downloaded, total, speed) {
        Some(secs) => secs,
        None => 0,
    };
    decimal((downloaded / 1024) as nat) + "/"@ + decimal((total / 1024) as nat) + " KiB ("@
        + decimal((speed / 1024) as nat) + " KiB/s) - "@ + decimal(secs as nat) + " seconds left"@
}

/// The line that shows the progress of a download.
pub fn progress_label(downloaded: u64, total: u64, speed: u64) -> (r: String)
    ensures
        r@ == progress_text(downloaded, total, speed),
{
    let secs: u64 = match remaining_seconds(downloaded, total, speed) {
        Some(secs) => secs,
        None => 0,
    };
    let mut r = format_decimal(downloaded / 1024);
    append(&mut r, "/");
    append(&mut r, format_decimal(total / 1024).as_str());
    append(&mut r, " KiB (");
    append(&mut r, format_decimal(speed / 1024).as_str());
    append(&mut r, " KiB/s) - ");
    append(&mut r, format_decimal(secs).as_str());
    append(&mut r, " seconds left");
    r
}

/// How far a connection attempt is.
#[derive(Clone, Debug, PartialEq, Eq)]
pub enum ConnectMode {
    Connecting { addr: String },
    ConnectingErr { msg: String },
    Queue { msg: String },
    DisconnectErr { msg: String },
}

/// What is shown of a connection attempt: one or two lines, and a button.
#[derive(Clone, Debug, PartialEq, Eq)]
pub struct ModeLabels<T> {
    pub first: T,
    pub second: Option<T>,
    pub button: T,
}

impl View for ModeLabels<String> {
    type V = ModeLabels<Seq<char>>;

    open spec fn view(&self) -> ModeLabels<Seq<char>> {
        ModeLabels {
            first: self.first@,
            second: match self.second {
                Some(text) => Some(text@),
                None => None,
            },
            button: self.button@,
        }
    }
}

/// What is shown of a connection attempt to `server`.
pub open spec fn labels_of(mode: ConnectMode, server: Seq<char>) -> ModeLabels<Seq<char>> {
    match mode {
        ConnectMode::Connecting { addr } => ModeLabels {
            first: "Connecting to:\n"@ + addr@,
            second: None,
            button: "Cancel"@,
        },
        ConnectMode::ConnectingErr { msg } => ModeLabels {
            first: "Connecting to "@ + server + " failed:\n"@ + msg@,
            second: None,
            button: "Return"@,
        },
        ConnectMode::Queue { msg } => ModeLabels {
            first: "Connecting to "@ + server,
            second: Some("Waiting in queue: "@ + msg@),
            button: "Cancel"@,
        },
        ConnectMode::DisconnectErr { msg } => ModeLabels {
            first: "Connection to "@ + server + " lost:\n"@ + msg@,
            second: None,
            button: "Return"@,
        },
    }
}

/// What is shown of a connection attempt to `server`.
pub fn render_modes(mode: &ConnectMode, server: &str) -> (r: ModeLabels<String>)
    ensures
        r@ == labels_of(*mode, server@),
{
    match mode {
        ConnectMode::Connecting { addr } => {
            let mut first = "Connecting to:\n".to_owned();
            append(&mut first, addr.as_str());
            ModeLabels { first, second: None, button: "Cancel".to_owned() }
        },
        ConnectMode::ConnectingErr { msg } => {
            let mut first = "Connecting to ".to_owned();
            append(&mut first, server);
            append(&mut first, " failed:\n");
            append(&mut first, msg.as_str());
            ModeLabels { first, second: None, button: "Return".to_owned() }
        },
        ConnectMode::Queue { msg } => {
            let mut first = "Connecting to ".to_owned();
            append(&mut first, server);
            let mut second = "Waiting in queue: ".to_owned();
            append(&mut second, msg.as_str());
            ModeLabels { first, second: Some(second), button: "Cancel".to_owned() }
        },
        ConnectMode::DisconnectErr { msg } => {
            let mut first = "Connection to ".to_owned();
            append(&mut first, server);
            append(&mut first, " lost:\n");
            append(&mut first, msg.as_str());
            ModeLabels { first, second: None, button: "Return".to_owned() }
        },
    }
}

/// The line that names the map that is downloaded.
pub fn map_label(map_name: &str) -> (r: String)
    ensures
        r@ == "Downloading map: "@ + map_name@,
{
    let mut r = "Downloading map: ".to_owned();
    append(&mut r, map_name);
    r
}

/// The switches of the map editor's bottom panel.
#[derive(Clone, Copy, Debug, PartialEq, Eq, Structural)]
pub struct PanelState {
    pub animations_panel_open: bool,
    pub server_commands_open: bool,
    pub server_config_variables_open: bool,
    pub parallax_aware_zoom: bool,
    pub time_scale: u32,
}

/// What the user did to a switch: clicked its button, or pressed its hotkey.
#[derive(Clone, Copy, Debug, PartialEq, Eq, Structural)]
pub struct Toggle {
    pub clicked: bool,
    pub by_hotkey: bool,
}

/// What the user did to the panel.
#[derive(Clone, Copy, Debug, PartialEq, Eq, Structural)]
pub struct PanelInput {
    pub animations: Toggle,
    pub server_commands: Toggle,
    pub server_config_variables: Toggle,
    pub parallax_zoom: Toggle,
    pub increase_speed: bool,
    pub decrease_speed: bool,
}

/// A switch after the user did something to it. A click together with the
/// hotkey counts once.
pub open spec fn toggled(open: bool, toggle: Toggle) -> bool {
    if toggle.clicked || toggle.by_hotkey {
        !open
    } else {
        open
    }
}

/// The time multiplier after the user changed it: it doubles from at least
/// one half, and halves.
pub open spec fn scaled(time_scale: u32, increase: bool, decrease: bool) -> int {
    let up = if increase {
        if time_scale == 0 {
            1
        } else {
            time_scale * 2
        }
    } else {
        time_scale as int
    };
    if decrease {
        up / 2
    } else {
        up
    }
}

fn toggle(open: bool, by: Toggle) -> (r: bool)
    ensures
        r == toggled(open, by),
{
    if by.clicked || by.by_hotkey {
        !open
    } else {
        open
    }
}

impl PanelState {
    /// Applies what the user did to the panel.
    pub fn apply(&mut self, input: PanelInput)
        requires
            input.increase_speed ==> old(self).time_scale <= u32::MAX / 2,
        ensures
            *final(self) == (PanelState {
                animations_panel_open: toggled(
                    old(self).animations_panel_open,
                    input.animations,
                ),
                server_commands_open: toggled(
                    old(self).server_commands_open,
                    input.server_commands,
                ),
                server_config_variables_open: toggled(
                    old(self).server_config_variables_open,
                    input.server_config_variables,
                ),
                parallax_aware_zoom: toggled(old(self).parallax_aware_zoom, input.parallax_zoom),
                time_scale: scaled(
                    old(self).time_scale,
                    input.increase_speed,
                    input.decrease_speed,
                ) as u32,
            }),
    {
        self.animations_panel_open = toggle(self.animations_panel_open, input.animations);
        self.server_commands_open = toggle(self.server_commands_open, input.server_commands);
        self.server_config_variables_open = toggle(
            self.server_config_variables_open,
            input.server_config_variables,
        );
        self.parallax_aware_zoom = toggle(self.parallax_aware_zoom, input.parallax_zoom);
        if input.increase_speed {
            self.time_scale = if self.time_scale == 0 {
                1
            } else {
                self.time_scale * 2
            };
        }
        if input.decrease_speed {
            self.time_scale = self.time_scale / 2;
        }
    }
}

/// Pressing a switch twice leaves it as it was.
pub proof fn toggling_twice_changes_nothing(open: bool, by: Toggle)
    ensures
        toggled(toggled(open, by), by) == open,
{
}

/// Speeding up and slowing down cancel out, except from a standstill, which
/// they leave too.
pub proof fn speeding_up_is_undone(time_scale: u32)
    requires
        time_scale <= u32::MAX / 2,
    ensures
        scaled(scaled(time_scale, true, false) as u32, false, true) == time_scale,
{
}

/// An estimate is in whole seconds. At this speed the rest has arrived after
/// that time, and not a second before. Without speed there is none.
pub proof fn estimates_are_as_short_as_possible(
    downloaded: u64,
    total: u64,
    speed: u64,
    r: Option<Duration>,
)
    requires
        call_ensures(estimate_time_remaining, (downloaded, total, speed), r),
    ensures
        r is None <==> speed == 0,
        r matches Some(d) ==> {
            &&& downloaded >= total ==> duration_nanos(d) == 0
            &&& downloaded < total ==> exists|secs: int|
                {
                    &&& duration_nanos(d) == #[trigger] (secs * 1_000_000_000)
                    &&& secs * speed >= total - downloaded
                    &&& (secs - 1) * speed < total - downloaded
                }
        },
{
    if speed > 0 && downloaded < total {
        estimate_is_tight(downloaded, total, speed);
        let secs = seconds_left(downloaded, total, speed)->0;
        assert(duration_nanos(r->0) == secs * 1_000_000_000);
    }
}

/// The progress shows the sizes and the speed in KiB, and the estimate in
/// seconds, or zero without one.
pub proof fn progress_shows_sizes_speed_and_estimate(
    downloaded: u64,
    total: u64,
    speed: u64,
    r: String,
    a: String,
    b: String,
    c: String,
    d: String,
    estimate: Option<Duration>,
    secs: u64,
)
    requires
        call_ensures(progress_label, (downloaded, total, speed), r),
        call_ensures(format_decimal, ((downloaded / 1024) as u64,), a),
        call_ensures(format_decimal, ((total / 1024) as u64,), b),
        call_ensures(format_decimal, ((speed / 1024) as u64,), c),
        call_ensures(estimate_time_remaining, (downloaded, total, speed), estimate),
        estimate is None ==> secs == 0,
        estimate matches Some(t) ==> duration_nanos(t) == secs * 1_000_000_000,
        call_ensures(format_decimal, (secs,), d),
    ensures
        r@ == a@ + "/"@ + b@ + " KiB ("@ + c@ + " KiB/s) - "@ + d@ + " seconds left"@,
{
}

/// What is shown of a connection attempt names the address or the server, and
/// the message. The button cancels what is under way, and leads back from
/// what failed.
pub proof fn attempts_are_shown_with_their_message(
    mode: &ConnectMode,
    server: &str,
    r: ModeLabels<String>,
)
    requires
        call_ensures(render_modes, (mode, server), r),
    ensures
        *mode matches ConnectMode::Connecting { addr } ==> r.first@ == "Connecting to:\n"@ + addr@
            && r.second is None && r.button@ == "Cancel"@,
        *mode matches ConnectMode::ConnectingErr { msg } ==> r.first@ == "Connecting to "@ + server@
            + " failed:\n"@ + msg@ && r.second is None && r.button@ == "Return"@,
        *mode matches ConnectMode::Queue { msg } ==> r.first@ == "Connecting to "@ + server@
            && r.second is Some && r.second->0@ == "Waiting in queue: "@ + msg@ && r.button@
            == "Cancel"@,
        *mode matches ConnectMode::DisconnectErr { msg } ==> r.first@ == "Connection to "@ + server@
            + " lost:\n"@ + msg@ && r.second is None && r.button@ == "Return"@,
{
    assert(r@.first == r.first@);
    assert(r@.button == r.button@);
    assert(r.second is Some <==> r@.second is Some);
    assert(r.second is Some ==> r.second->0@ == r@.second->0);
}

/// The map that is downloaded is named.
pub proof fn downloads_name_their_map(name: &str, r: String)
    requires
        call_ensures(map_label, (name,), r),
    ensures
        r@ == "Downloading map: "@ + name@,
{
}

/// A switch changes exactly if its own button or hotkey was used.
pub proof fn switches_change_by_their_own_toggle(p: &mut PanelState, input: PanelInput)
    requires
        call_ensures(PanelState::apply, (p, input), ()),
    ensures
        final(p).animations_panel_open != old(p).animations_panel_open
            <==> input.animations.clicked || input.animations.by_hotkey,
        final(p).server_commands_open != old(p).server_commands_open
            <==> input.server_commands.clicked || input.server_commands.by_hotkey,
        final(p).server_config_variables_open != old(p).server_config_variables_open
            <==> input.server_config_variables.clicked || input.server_config_variables.by_hotkey,
        final(p).parallax_aware_zoom != old(p).parallax_aware_zoom
            <==> input.parallax_zoom.clicked || input.parallax_zoom.by_hotkey,
{
}

/// Speeding up doubles the time scale, from a standstill to the least that
/// moves. Slowing down halves it. Both together cancel out.
pub proof fn speed_doubles_and_halves(p: &mut PanelState, input: PanelInput)
    requires
        call_ensures(PanelState::apply, (p, input), ()),
        old(p).time_scale <= u32::MAX / 2,
    ensures
        input.increase_speed && !input.decrease_speed && old(p).time_scale > 0
            ==> final(p).time_scale == 2 * old(p).time_scale,
        input.increase_speed && !input.decrease_speed && old(p).time_scale == 0
            ==> final(p).time_scale == 1,
        !input.increase_speed && input.decrease_speed ==> final(p).time_scale == old(p).time_scale
            / 2,
        input.increase_speed == input.decrease_speed ==> final(p).time_scale == old(p).time_scale,
{
}

} // verus!
