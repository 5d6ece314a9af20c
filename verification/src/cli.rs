//! The command line of the launcher, and how it picks the way to show
//! images in the terminal it runs in.
use vstd::prelude::*;
use crate::config::ImageProtocol;
use crate::i18n::Translator;
use crate::text::{chars_of, owned, parse_u32, parse_u32_spec};

verus! {

/// What the command line asks for.
#[derive(Debug, Clone, Copy, PartialEq, Eq, Structural)]
pub enum Command {
    Help,
    Version,
    PrintDefaultConfig,
    Run { list: bool, no_images: bool },
}

/// What the arguments ask for, read in order; `None` stands for an
/// argument that is not text. Help, the version and the example
/// configuration end the reading; `--config` and anything unknown are
/// errors.
pub open spec fn command_spec(args: Seq<Option<Seq<char>>>, list: bool, no_images: bool, spanish: bool, lossy: Seq<Seq<char>>) -> Result<Command, Seq<char>>
    decreases args.len(),
{
    if args.len() == 0 {
        Ok(Command::Run { list, no_images })
    } else {
        match args[0] {
            Some(a) => if a == "--help"@ || a == "-h"@ {
                Ok(Command::Help)
            } else if a == "--version"@ || a == "-V"@ {
                Ok(Command::Version)
            } else if a == "--print-default-config"@ {
                Ok(Command::PrintDefaultConfig)
            } else if a == "--config"@ {
                Err(if spanish {
                    "Lapi busca primero la configuración de usuario y después /etc/lapi-launcher/config.toml"@
                } else {
                    "Lapi checks the user configuration first and then /etc/lapi-launcher/config.toml"@
                })
            } else if a == "--list"@ {
                command_spec(args.drop_first(), true, no_images, spanish, lossy.drop_first())
            } else if a == "--no-images"@ {
                command_spec(args.drop_first(), list, true, spanish, lossy.drop_first())
            } else {
                Err(unknown(lossy[0], spanish))
            },
            None => Err(unknown(lossy[0], spanish)),
        }
    }
}

/// The message for an unknown argument.
pub open spec fn unknown(option: Seq<char>, spanish: bool) -> Seq<char> {
    if spanish {
        "Opción desconocida: "@ + option + ". Usa --help"@
    } else {
        "Unknown option: "@ + option + ". Use --help"@
    }
}

/// Reads the command line. `args` holds each argument as text, or `None`
/// where it is not; `lossy` holds each as shown in messages.
pub fn parse_arguments(args: &Vec<Option<String>>, lossy: &Vec<String>, text: Translator) -> (r: Result<Command, String>)
    requires
        lossy@.len() == args@.len(),
    ensures
        match (r, command_spec(
            args@.map_values(|a: Option<String>| crate::storage::opt_view(a)),
            false,
            false,
            text.spanish(),
            lossy@.map_values(|s: String| s@),
        )) {
            (Ok(c), Ok(d)) => c == d,
            (Err(m), Err(e)) => m@ == e,
            _ => false,
        },
{
    let ghost av = args@.map_values(|a: Option<String>| crate::storage::opt_view(a));
    let ghost lv = lossy@.map_values(|s: String| s@);
    let ghost sp = text.spanish();
    let mut list = false;
    let mut no_images = false;
    let mut i: usize = 0;
    assert(av.skip(0) =~= av);
    assert(lv.skip(0) =~= lv);
    while i < args.len()
        invariant
            0 <= i <= args@.len(),
            lossy@.len() == args@.len(),
            av == args@.map_values(|a: Option<String>| crate::storage::opt_view(a)),
            lv == lossy@.map_values(|s: String| s@),
            sp == text.spanish(),
            command_spec(av, false, false, sp, lv) == command_spec(av.skip(i as int), list, no_images, sp, lv.skip(i as int)),
        decreases args@.len() - i,
    {
        assert(av.skip(i as int).drop_first() =~= av.skip(i + 1));
        assert(lv.skip(i as int).drop_first() =~= lv.skip(i + 1));
        assert(av.skip(i as int)[0] == crate::storage::opt_view(args@[i as int]));
        assert(lv.skip(i as int)[0] == lossy@[i as int]@);
        match &args[i] {
            Some(a) => {
                let s = a.as_str();
                if crate::text::str_equal(s, "--help") || crate::text::str_equal(s, "-h") {
                    return Ok(Command::Help);
                } else if crate::text::str_equal(s, "--version") || crate::text::str_equal(s, "-V") {
                    return Ok(Command::Version);
                } else if crate::text::str_equal(s, "--print-default-config") {
                    return Ok(Command::PrintDefaultConfig);
                } else if crate::text::str_equal(s, "--config") {
                    return Err(owned(text.config_option_message()));
                } else if crate::text::str_equal(s, "--list") {
                    list = true;
                } else if crate::text::str_equal(s, "--no-images") {
                    no_images = true;
                } else {
                    return Err(text.unknown_option(lossy[i].as_str()));
                }
            },
            None => {
                return Err(text.unknown_option(lossy[i].as_str()));
            },
        }
        i += 1;
    }
    Ok(Command::Run { list, no_images })
}

/// Whether images are sent the way older Kitty-protocol terminals need:
/// when asked for, or left to choose inside Konsole 22.04 or later outside
/// `tmux` and `screen`.
pub open spec fn legacy_graphics_spec(protocol: ImageProtocol, konsole_version: Option<Seq<char>>, tmux: bool, screen: bool) -> bool {
    protocol == ImageProtocol::KittyLegacy || (protocol == ImageProtocol::Auto && match konsole_version {
        Some(v) => match parse_u32_spec(v) {
            Some(n) => n >= 220400,
            None => false,
        },
        None => false,
    } && !tmux && !screen)
}

/// Decides whether images are sent the way older Kitty-protocol terminals
/// need; `konsole_version` is `KONSOLE_VERSION` where it is set as text,
/// `tmux` and `screen` tell whether `TMUX` and `STY` are set.
pub fn legacy_graphics(protocol: ImageProtocol, konsole_version: &Option<String>, tmux: bool, screen: bool) -> (r: bool)
    ensures
        r == legacy_graphics_spec(protocol, crate::storage::opt_view(*konsole_version), tmux, screen),
{
    if protocol == ImageProtocol::KittyLegacy {
        return true;
    }
    if protocol != ImageProtocol::Auto || tmux || screen {
        return false;
    }
    match konsole_version {
        Some(v) => match parse_u32(&chars_of(v.as_str())) {
            Some(n) => n >= 220400,
            None => false,
        },
        None => false,
    }
}

/// How images are drawn.
#[derive(Debug, Clone, Copy, PartialEq, Eq, Structural)]
pub enum Drawing {
    Halfblocks,
    Kitty,
    Sixel,
    Iterm2,
    /// What the terminal answered when asked.
    Detected,
}

/// Whether the terminal is asked what it can draw: unless half blocks are
/// configured.
pub fn query_terminal(protocol: ImageProtocol) -> (r: bool)
    ensures
        r == (protocol != ImageProtocol::Halfblocks),
{
    protocol != ImageProtocol::Halfblocks
}

/// How images are drawn: as configured; when left to choose, what the
/// terminal answered, except that WezTerm, when it answers half blocks,
/// gets the iTerm2 protocol.
pub open spec fn drawing_spec(protocol: ImageProtocol, detected_halfblocks: bool, wezterm: bool) -> Drawing {
    match protocol {
        ImageProtocol::Halfblocks => Drawing::Halfblocks,
        ImageProtocol::Kitty => Drawing::Kitty,
        ImageProtocol::Sixel => Drawing::Sixel,
        ImageProtocol::Iterm2 => Drawing::Iterm2,
        ImageProtocol::Auto => if detected_halfblocks && wezterm {
            Drawing::Iterm2
        } else {
            Drawing::Detected
        },
        ImageProtocol::KittyLegacy => Drawing::Detected,
    }
}

/// Decides how images are drawn.
pub fn drawing(protocol: ImageProtocol, detected_halfblocks: bool, wezterm: bool) -> (r: Drawing)
    ensures
        r == drawing_spec(protocol, detected_halfblocks, wezterm),
{
    match protocol {
        ImageProtocol::Halfblocks => Drawing::Halfblocks,
        ImageProtocol::Kitty => Drawing::Kitty,
        ImageProtocol::Sixel => Drawing::Sixel,
        ImageProtocol::Iterm2 => Drawing::Iterm2,
        ImageProtocol::Auto => if detected_halfblocks && wezterm {
            Drawing::Iterm2
        } else {
            Drawing::Detected
        },
        ImageProtocol::KittyLegacy => Drawing::Detected,
    }
}

} // verus!
