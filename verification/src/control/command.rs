//! The commands of the control protocol and their replies.

use vstd::prelude::*;
use vstd::string::StringExecFns;

use crate::balloon::device::{Balloon, VirtioBalloonConfig};
use crate::control::json::{
    extract_string_field, extract_u32_field, string_field, string_field_is_part, u32_field,
};
use crate::control::text::{decimal, decimal_spells_its_number, push_decimal};

verus! {

/// How many balloon pages a MiB has.
pub const PAGES_PER_MIB: u32 = 256;

/// The reply to a command that was carried out and has nothing to tell.
pub open spec fn ok_reply() -> Seq<char> {
    "{\"ok\":true}"@
}

/// The reply that names the problem `message`.
pub open spec fn error_reply(message: Seq<char>) -> Seq<char> {
    "{\"ok\":false,\"error\":\""@ + message + "\"}"@
}

/// The reply to a question for the balloon's size and target, given in pages.
pub open spec fn stats_reply(actual: u32, target: u32) -> Seq<char> {
    "{\"ok\":true,\"actual_mib\":"@ + decimal((actual / PAGES_PER_MIB) as nat)
        + ",\"target_mib\":"@ + decimal((target / PAGES_PER_MIB) as nat) + ",\"free_mib\":0}"@
}

/// The command that `line` gives.
pub open spec fn command(line: Seq<char>) -> Option<Seq<char>> {
    string_field(line, "cmd"@)
}

/// The balloon target in pages that `line` asks for, or the problem with it.
pub open spec fn asked_target(line: Seq<char>) -> Result<u32, Seq<char>> {
    match u32_field(line, "target_mib"@) {
        None => Err("missing or invalid 'target_mib' field"@),
        Some(mib) => if mib * PAGES_PER_MIB > u32::MAX {
            Err("target_mib too large"@)
        } else {
            Ok((mib * PAGES_PER_MIB) as u32)
        },
    }
}

/// The reply to a command `line` that sets the target, where the balloon, if there is one, has the
/// configuration `config`.
pub open spec fn balloon_set_reply(line: Seq<char>, config: Option<VirtioBalloonConfig>) -> Seq<
    char,
> {
    match config {
        None => error_reply("balloon device not configured"@),
        Some(_) => match asked_target(line) {
            Err(message) => error_reply(message),
            Ok(_) => ok_reply(),
        },
    }
}

/// The reply to a command that asks for the balloon's size and target.
pub open spec fn balloon_stats_reply(config: Option<VirtioBalloonConfig>) -> Seq<char> {
    match config {
        None => error_reply("balloon device not configured"@),
        Some(config) => stats_reply(config.actual, config.num_pages),
    }
}

/// The reply to `line` where the balloon, if there is one, has the configuration `config`.
pub open spec fn reply(line: Seq<char>, config: Option<VirtioBalloonConfig>) -> Seq<char> {
    match command(line) {
        None => error_reply("missing or invalid 'cmd' field"@),
        Some(cmd) => if cmd == "balloon_set"@ {
            balloon_set_reply(line, config)
        } else if cmd == "balloon_stats"@ {
            balloon_stats_reply(config)
        } else {
            error_reply("unknown command: "@ + cmd)
        },
    }
}

/// The balloon's configuration after its target was set as `line` asks, if that is possible.
pub open spec fn config_set(line: Seq<char>, config: VirtioBalloonConfig) -> VirtioBalloonConfig {
    match asked_target(line) {
        Ok(num_pages) => VirtioBalloonConfig { num_pages, ..config },
        Err(_) => config,
    }
}

/// The target that `line` sets on a balloon, if it sets one.
pub open spec fn new_target(line: Seq<char>) -> Option<u32> {
    if command(line) == Some("balloon_set"@) {
        match asked_target(line) {
            Ok(pages) => Some(pages),
            Err(_) => None,
        }
    } else {
        None
    }
}

/// The balloon's configuration after `line`.
pub open spec fn config_after(line: Seq<char>, config: VirtioBalloonConfig) -> VirtioBalloonConfig {
    match new_target(line) {
        Some(num_pages) => VirtioBalloonConfig { num_pages, ..config },
        None => config,
    }
}

/// The reply to a command.
#[derive(Debug)]
pub struct Response {
    pub text: String,
    /// Whether the guest is to be told of a changed configuration.
    pub signal: bool,
}

/// The reply that names the problem `message`.
pub(crate) fn error_text(message: &str) -> (r: String)
    ensures
        r@ == error_reply(message@),
{
    let mut s: String = "{\"ok\":false,\"error\":\"".to_owned();
    s.append(message);
    s.append("\"}");
    s
}

/// A response that tells the guest nothing.
fn quiet(text: String) -> (r: Response)
    ensures
        r.text@ == text@,
        !r.signal,
{
    Response { text, signal: false }
}

/// Carries out the command `line` on the balloon, if there is one.
pub fn dispatch_command(line: &str, balloon: Option<&mut Balloon>) -> (r: Response)
    ensures
        r.text@ == reply(
            line@,
            match balloon {
                Some(b) => Some(b.config),
                None => None,
            },
        ),
        match balloon {
            Some(b) => {
                &&& *final(b) == (Balloon { config: config_after(line@, b.config), ..*b })
                &&& r.signal == (new_target(line@) is Some && b.activated())
            },
            None => !r.signal,
        },
{
    let cmd: String = match extract_string_field(line, "cmd") {
        Some(cmd) => cmd,
        None => {
            return quiet(error_text("missing or invalid 'cmd' field"));
        },
    };
    if cmd == "balloon_set".to_owned() {
        cmd_balloon_set(line, balloon)
    } else if cmd == "balloon_stats".to_owned() {
        match balloon {
            Some(b) => quiet(cmd_balloon_stats(Some(&*b))),
            None => quiet(cmd_balloon_stats(None)),
        }
    } else {
        let mut message: String = "unknown command: ".to_owned();
        message.append(cmd.as_str());
        quiet(error_text(message.as_str()))
    }
}

/// Sets the balloon target that `line` asks for.
pub fn cmd_balloon_set(line: &str, balloon: Option<&mut Balloon>) -> (r: Response)
    ensures
        r.text@ == balloon_set_reply(
            line@,
            match balloon {
                Some(b) => Some(b.config),
                None => None,
            },
        ),
        match balloon {
            Some(b) => {
                &&& *final(b) == (Balloon { config: config_set(line@, b.config), ..*b })
                &&& r.signal == (asked_target(line@) is Ok && b.activated())
            },
            None => !r.signal,
        },
{
    let balloon: &mut Balloon = match balloon {
        Some(balloon) => balloon,
        None => {
            return quiet(error_text("balloon device not configured"));
        },
    };
    let target_mib: u32 = match extract_u32_field(line, "target_mib") {
        Some(target_mib) => target_mib,
        None => {
            return quiet(error_text("missing or invalid 'target_mib' field"));
        },
    };
    match target_mib.checked_mul(PAGES_PER_MIB) {
        Some(pages) => {
            let signal: bool = balloon.set_num_pages(pages);
            Response { text: "{\"ok\":true}".to_owned(), signal }
        },
        None => quiet(error_text("target_mib too large")),
    }
}

/// Tells the balloon's size and target.
pub fn cmd_balloon_stats(balloon: Option<&Balloon>) -> (r: String)
    ensures
        r@ == balloon_stats_reply(
            match balloon {
                Some(b) => Some(b.config),
                None => None,
            },
        ),
{
    match balloon {
        Some(b) => {
            let mut s: String = "{\"ok\":true,\"actual_mib\":".to_owned();
            push_decimal(&mut s, b.actual() / PAGES_PER_MIB);
            s.append(",\"target_mib\":");
            push_decimal(&mut s, b.num_pages() / PAGES_PER_MIB);
            s.append(",\"free_mib\":0}");
            s
        },
        None => error_text("balloon device not configured"),
    }
}

/// After a command that sets the target was answered with success, the balloon reports exactly
/// the number that the command asked for.
pub proof fn stats_report_the_target_that_was_set(line: Seq<char>, config: VirtioBalloonConfig)
    requires
        balloon_set_reply(line, Some(config)) == ok_reply(),
    ensures
        u32_field(line, "target_mib"@) matches Some(mib) && balloon_stats_reply(
            Some(config_set(line, config)),
        ) == "{\"ok\":true,\"actual_mib\":"@ + decimal((config.actual / PAGES_PER_MIB) as nat)
            + ",\"target_mib\":"@ + decimal(mib as nat) + ",\"free_mib\":0}"@,
{
    if let Err(message) = asked_target(line) {
        reveal_strlit("{\"ok\":true}");
        reveal_strlit("{\"ok\":false,\"error\":\"");
        assert(ok_reply()[6] == 't');
        assert(error_reply(message)[6] == 'f');
    }
}

/// The balloon's configuration after all of `lines`.
pub open spec fn config_after_all(lines: Seq<Seq<char>>, config: VirtioBalloonConfig) ->
    VirtioBalloonConfig
    decreases lines.len(),
{
    if lines.len() == 0 {
        config
    } else {
        config_after(lines.last(), config_after_all(lines.drop_last(), config))
    }
}

/// The last command that set a target decides: whatever other commands come after it, the balloon
/// has that target and reports it.
pub proof fn last_target_is_reported(lines: Seq<Seq<char>>, config: VirtioBalloonConfig, k: int)
    requires
        0 <= k < lines.len(),
        new_target(lines[k]) is Some,
        forall|i: int| k < i < lines.len() ==> new_target(#[trigger] lines[i]) is None,
    ensures
        config_after_all(lines, config) == (VirtioBalloonConfig {
            num_pages: new_target(lines[k]).unwrap(),
            ..config
        }),
        u32_field(lines[k], "target_mib"@) matches Some(mib) && balloon_stats_reply(
            Some(config_after_all(lines, config)),
        ) == "{\"ok\":true,\"actual_mib\":"@ + decimal((config.actual / PAGES_PER_MIB) as nat)
            + ",\"target_mib\":"@ + decimal(mib as nat) + ",\"free_mib\":0}"@,
    decreases lines.len(),
{
    let before = lines.drop_last();
    if k == lines.len() - 1 {
        only_targets_change(before, config);
    } else {
        assert(new_target(lines[lines.len() - 1]) is None);
        assert forall|i: int| k < i < before.len() implies new_target(
            #[trigger] before[i],
        ) is None by {
            assert(before[i] == lines[i]);
        }
        last_target_is_reported(before, config, k);
    }
}

/// Commands change nothing but the target.
proof fn only_targets_change(lines: Seq<Seq<char>>, config: VirtioBalloonConfig)
    ensures
        config_after_all(lines, config) == (VirtioBalloonConfig {
            num_pages: config_after_all(lines, config).num_pages,
            ..config
        }),
    decreases lines.len(),
{
    if lines.len() > 0 {
        only_targets_change(lines.drop_last(), config);
    }
}

/// A command changes nothing but the target, and that only if it is answered with success.
pub proof fn refused_command_changes_nothing(line: Seq<char>, config: VirtioBalloonConfig)
    ensures
        reply(line, Some(config)) != ok_reply() ==> config_after(line, config) == config,
        config_after(line, config) == (VirtioBalloonConfig {
            num_pages: config_after(line, config).num_pages,
            ..config
        }),
{
}

/// A command of one line is answered by one line: without a line feed in it there is none in the
/// reply.
pub proof fn reply_is_one_line(line: Seq<char>, config: Option<VirtioBalloonConfig>)
    requires
        !line.contains('\n'),
    ensures
        !reply(line, config).contains('\n'),
{
    reveal_strlit("{\"ok\":true}");
    reveal_strlit("{\"ok\":false,\"error\":\"");
    reveal_strlit("\"}");
    reveal_strlit("{\"ok\":true,\"actual_mib\":");
    reveal_strlit(",\"target_mib\":");
    reveal_strlit(",\"free_mib\":0}");
    reveal_strlit("missing or invalid 'cmd' field");
    reveal_strlit("missing or invalid 'target_mib' field");
    reveal_strlit("target_mib too large");
    reveal_strlit("balloon device not configured");
    reveal_strlit("unknown command: ");
    if let Some(cmd) = command(line) {
        string_field_is_part(line, "cmd"@);
        let (from, to) = choose|from: int, to: int|
            0 <= from <= to <= line.len() && cmd == #[trigger] line.subrange(from, to);
        assert forall|i: int| 0 <= i < cmd.len() implies cmd[i] != '\n' by {
            assert(cmd[i] == line[from + i]);
        }
    }
    if let Some(config) = config {
        let actual = decimal((config.actual / PAGES_PER_MIB) as nat);
        let target = decimal((config.num_pages / PAGES_PER_MIB) as nat);
        decimal_spells_its_number((config.actual / PAGES_PER_MIB) as nat);
        decimal_spells_its_number((config.num_pages / PAGES_PER_MIB) as nat);
        assert(forall|i: int| 0 <= i < actual.len() ==> #[trigger] actual[i] != '\n');
        assert(forall|i: int| 0 <= i < target.len() ==> #[trigger] target[i] != '\n');
    }
    let text = reply(line, config);
    assert forall|i: int| 0 <= i < text.len() implies text[i] != '\n' by {}
}

} // verus!
