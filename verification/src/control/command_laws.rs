//! What each command is answered, and what it changes.

use vstd::prelude::*;

use crate::balloon::device::VirtioBalloonConfig;
use crate::control::command::{
    asked_target, balloon_set_reply, balloon_stats_reply, command, config_after, config_set,
    new_target, reply,
};
use crate::control::json::{string_field, u32_field};
use crate::control::text::decimal;

verus! {

/// Every target whose pages can be counted in 32 bits is accepted: the balloon answers so, and its
/// target is that number of MiB, in pages of 4 KiB.
pub proof fn target_is_set(line: Seq<char>, mib: u32, config: VirtioBalloonConfig)
    requires
        u32_field(line, "target_mib"@) == Some(mib),
        256 * mib < 4294967296,
    ensures
        asked_target(line) is Ok,
        balloon_set_reply(line, Some(config)) == "{\"ok\":true}"@,
        config_set(line, config) == (VirtioBalloonConfig {
            num_pages: (256 * mib) as u32,
            ..config
        }),
{
}

/// A target that is missing or too large, or a balloon that is, is told; nothing changes.
pub proof fn target_is_refused(line: Seq<char>, config: VirtioBalloonConfig)
    ensures
        balloon_set_reply(line, None)
            == "{\"ok\":false,\"error\":\""@ + "balloon device not configured"@ + "\"}"@,
        u32_field(line, "target_mib"@) is None ==> {
            &&& asked_target(line) is Err
            &&& config_set(line, config) == config
            &&& balloon_set_reply(line, Some(config))
                == "{\"ok\":false,\"error\":\""@ + "missing or invalid 'target_mib' field"@ + "\"}"@
        },
        u32_field(line, "target_mib"@) matches Some(mib) && 256 * mib >= 4294967296 ==> {
            &&& asked_target(line) is Err
            &&& config_set(line, config) == config
            &&& balloon_set_reply(line, Some(config))
                == "{\"ok\":false,\"error\":\""@ + "target_mib too large"@ + "\"}"@
        },
{
}

/// A line that commands to set the target is answered and carried out as such: with every target
/// that can be counted in 32 bits the configuration gets it.
pub proof fn set_command_is_carried_out(line: Seq<char>, config: Option<VirtioBalloonConfig>)
    requires
        string_field(line, "cmd"@) == Some("balloon_set"@),
    ensures
        reply(line, config) == balloon_set_reply(line, config),
        match u32_field(line, "target_mib"@) {
            Some(mib) => if 256 * mib < 4294967296 {
                &&& new_target(line) == Some((256 * mib) as u32)
                &&& config is Some ==> reply(line, config) == "{\"ok\":true}"@
                &&& forall|c: VirtioBalloonConfig| #[trigger]
                    config_after(line, c) == (VirtioBalloonConfig {
                        num_pages: (256 * mib) as u32,
                        ..c
                    })
            } else {
                new_target(line) is None && forall|c: VirtioBalloonConfig| #[trigger]
                    config_after(line, c) == c
            },
            None => new_target(line) is None && forall|c: VirtioBalloonConfig| #[trigger]
                config_after(line, c) == c,
        },
{
}

/// A line that asks for the balloon's size and target gets both, in whole MiB, and changes nothing.
pub proof fn stats_command_is_carried_out(line: Seq<char>, config: VirtioBalloonConfig)
    requires
        string_field(line, "cmd"@) == Some("balloon_stats"@),
    ensures
        reply(line, Some(config)) == "{\"ok\":true,\"actual_mib\":"@ + decimal(
            (config.actual as int / 256) as nat,
        ) + ",\"target_mib\":"@ + decimal((config.num_pages as int / 256) as nat)
            + ",\"free_mib\":0}"@,
        balloon_stats_reply(Some(config)) == reply(line, Some(config)),
        reply(line, None) == "{\"ok\":false,\"error\":\""@ + "balloon device not configured"@
            + "\"}"@,
        balloon_stats_reply(None) == reply(line, None),
        new_target(line) is None,
        config_after(line, config) == config,
{
    reveal_strlit("balloon_set");
    reveal_strlit("balloon_stats");
    assert("balloon_set"@.len() != "balloon_stats"@.len());
}

/// Any other line is answered by an error that repeats its command, or says that there is none. It
/// changes nothing.
pub proof fn other_commands_are_unknown(line: Seq<char>, config: Option<VirtioBalloonConfig>)
    requires
        string_field(line, "cmd"@) != Some("balloon_set"@),
        string_field(line, "cmd"@) != Some("balloon_stats"@),
    ensures
        reply(line, config) == match string_field(line, "cmd"@) {
            Some(cmd) => "{\"ok\":false,\"error\":\""@ + ("unknown command: "@ + cmd) + "\"}"@,
            None => "{\"ok\":false,\"error\":\""@ + "missing or invalid 'cmd' field"@ + "\"}"@,
        },
        new_target(line) is None,
        forall|c: VirtioBalloonConfig| #[trigger] config_after(line, c) == c,
{
    assert(command(line) == string_field(line, "cmd"@));
}

} // verus!
