//! The command line and the places that files are kept in.

use vstd::prelude::*;

use crate::text::same_text;

verus! {

/// What the command line asks for.
#[derive(Debug, Clone)]
pub struct Options {
    pub config: String,
    pub allow_device_hide: bool,
    pub foreground: bool,
    pub hidden_state: Option<String>,
    pub pidfile: Option<String>,
    pub restore_hidden_state: Option<String>,
}

/// What `Options` hold.
#[verifier::ext_equal]
pub struct OptionsView {
    pub config: Seq<char>,
    pub allow_device_hide: bool,
    pub foreground: bool,
    pub hidden_state: Option<Seq<char>>,
    pub pidfile: Option<Seq<char>>,
    pub restore_hidden_state: Option<Seq<char>>,
}

/// The text of an optional string.
pub open spec fn opt_text(s: Option<String>) -> Option<Seq<char>> {
    match s {
        Some(t) => Some(t@),
        None => None,
    }
}

impl View for Options {
    type V = OptionsView;

    open spec fn view(&self) -> OptionsView {
        OptionsView {
            config: self.config@,
            allow_device_hide: self.allow_device_hide,
            foreground: self.foreground,
            hidden_state: opt_text(self.hidden_state),
            pidfile: opt_text(self.pidfile),
            restore_hidden_state: opt_text(self.restore_hidden_state),
        }
    }
}

/// What an empty command line asks for.
pub open spec fn default_options() -> OptionsView {
    OptionsView {
        config: "/sdcard/.keyforge/keyforge.conf"@,
        allow_device_hide: false,
        foreground: false,
        hidden_state: None,
        pidfile: None,
        restore_hidden_state: None,
    }
}

/// Whether `arg` takes the argument after it as its value.
pub open spec fn takes_value(arg: Seq<char>) -> bool {
    arg == "--config"@ || arg == "--hidden-state"@ || arg == "--pidfile"@ || arg
        == "--restore-hidden-state"@
}

/// `o` with `value` for the option `arg`.
pub open spec fn with_value(o: OptionsView, arg: Seq<char>, value: Seq<char>) -> OptionsView {
    if arg == "--config"@ {
        OptionsView { config: value, ..o }
    } else if arg == "--hidden-state"@ {
        OptionsView { hidden_state: Some(value), ..o }
    } else if arg == "--pidfile"@ {
        OptionsView { pidfile: Some(value), ..o }
    } else {
        OptionsView { restore_hidden_state: Some(value), ..o }
    }
}

/// `o` with the switch `arg` on, if it is one.
pub open spec fn with_switch(o: OptionsView, arg: Seq<char>) -> OptionsView {
    if arg == "--allow-device-hide"@ {
        OptionsView { allow_device_hide: true, ..o }
    } else if arg == "--foreground"@ {
        OptionsView { foreground: true, ..o }
    } else {
        o
    }
}

/// `o` with what the arguments ask for. An option whose value is missing, and
/// an argument that is no option, ask for nothing.
pub open spec fn with_args(o: OptionsView, args: Seq<Seq<char>>) -> OptionsView
    decreases args.len(),
{
    if args.len() == 0 {
        o
    } else if takes_value(args[0]) {
        if args.len() == 1 {
            o
        } else {
            with_args(with_value(o, args[0], args[1]), args.skip(2))
        }
    } else {
        with_args(with_switch(o, args[0]), args.skip(1))
    }
}

/// Reads the arguments of the command line, without the program's name.
pub fn parse_args(args: &Vec<String>) -> (o: Options)
    ensures
        o@ == with_args(default_options(), args@.map_values(|s: String| s@)),
{
    let mut o = Options {
        config: "/sdcard/.keyforge/keyforge.conf".to_owned(),
        allow_device_hide: false,
        foreground: false,
        hidden_state: None,
        pidfile: None,
        restore_hidden_state: None,
    };
    let ghost all = args@.map_values(|s: String| s@);
    let ghost whole = with_args(default_options(), all);
    let mut i: usize = 0;
    assert(all.skip(0) =~= all);
    assert(o@ =~= default_options());
    while i < args.len()
        invariant
            i <= args@.len(),
            all == args@.map_values(|s: String| s@),
            whole == with_args(default_options(), all),
            with_args(o@, all.skip(i as int)) == whole,
        decreases args@.len() - i,
    {
        let ghost rest = all.skip(i as int);
        let ghost before = o@;
        let arg = args[i].as_str();
        assert(rest[0] == arg@);
        if same_text(arg, "--config") || same_text(arg, "--hidden-state") || same_text(
            arg,
            "--pidfile",
        ) || same_text(arg, "--restore-hidden-state") {
            if i + 1 == args.len() {
                return o;
            }
            let value = args[i + 1].as_str().to_owned();
            assert(rest[1] == value@);
            assert(rest.skip(2) =~= all.skip(i + 2));
            if same_text(arg, "--config") {
                o.config = value;
            } else if same_text(arg, "--hidden-state") {
                o.hidden_state = Some(value);
            } else if same_text(arg, "--pidfile") {
                o.pidfile = Some(value);
            } else {
                o.restore_hidden_state = Some(value);
            }
            assert(o@ =~= with_value(before, arg@, value@));
            i += 2;
        } else {
            assert(rest.skip(1) =~= all.skip(i + 1));
            if same_text(arg, "--allow-device-hide") {
                o.allow_device_hide = true;
            } else if same_text(arg, "--foreground") {
                o.foreground = true;
            }
            assert(o@ =~= with_switch(before, arg@));
            i += 1;
        }
    }
    assert(all.skip(i as int) =~= Seq::<Seq<char>>::empty());
    o
}

/// The directory for files that live as long as the daemon runs.
#[derive(Debug, Clone, Copy, PartialEq, Eq, Structural)]
pub enum RuntimeDir {
    /// That of the variable `KEYFORGE_RUNTIME_DIR`.
    Own,
    /// That of the variable `TMPDIR`.
    Tmp,
    /// The one that Android has for it.
    Android,
    /// The one that the system has for temporary files.
    System,
}

/// Chooses the directory: that of the first variable that is set and not
/// empty (each given by the length of its value), else one by the system.
pub fn runtime_dir(own: Option<usize>, tmp: Option<usize>, android: bool) -> (r: RuntimeDir)
    ensures
        r == (if own matches Some(n) && n > 0 {
            RuntimeDir::Own
        } else if tmp matches Some(n) && n > 0 {
            RuntimeDir::Tmp
        } else if android {
            RuntimeDir::Android
        } else {
            RuntimeDir::System
        }),
{
    match own {
        Some(n) => {
            if n > 0 {
                return RuntimeDir::Own;
            }
        },
        None => {},
    }
    match tmp {
        Some(n) => {
            if n > 0 {
                return RuntimeDir::Tmp;
            }
        },
        None => {},
    }
    if android {
        RuntimeDir::Android
    } else {
        RuntimeDir::System
    }
}

/// Each option with a value sets what it names to that value and nothing else,
/// and each switch turns on what it names.
pub proof fn law_options(o: OptionsView, value: Seq<char>)
    ensures
        with_args(o, seq!["--config"@, value]) == (OptionsView { config: value, ..o }),
        with_args(o, seq!["--hidden-state"@, value]) == (OptionsView {
            hidden_state: Some(value),
            ..o
        }),
        with_args(o, seq!["--pidfile"@, value]) == (OptionsView { pidfile: Some(value), ..o }),
        with_args(o, seq!["--restore-hidden-state"@, value]) == (OptionsView {
            restore_hidden_state: Some(value),
            ..o
        }),
        with_args(o, seq!["--allow-device-hide"@]) == (OptionsView { allow_device_hide: true, ..o }),
        with_args(o, seq!["--foreground"@]) == (OptionsView { foreground: true, ..o }),
{
    reveal_strlit("--config");
    reveal_strlit("--hidden-state");
    reveal_strlit("--pidfile");
    reveal_strlit("--restore-hidden-state");
    reveal_strlit("--allow-device-hide");
    reveal_strlit("--foreground");
    assert("--config"@.len() == 8);
    assert("--hidden-state"@.len() == 14);
    assert("--pidfile"@.len() == 9);
    assert("--restore-hidden-state"@.len() == 22);
    assert("--allow-device-hide"@.len() == 19);
    assert("--foreground"@.len() == 12);
    let none = Seq::<Seq<char>>::empty();
    assert(seq!["--config"@, value].skip(2) =~= none);
    assert(seq!["--hidden-state"@, value].skip(2) =~= none);
    assert(seq!["--pidfile"@, value].skip(2) =~= none);
    assert(seq!["--restore-hidden-state"@, value].skip(2) =~= none);
    assert(seq!["--allow-device-hide"@].skip(1) =~= none);
    assert(seq!["--foreground"@].skip(1) =~= none);
    reveal_with_fuel(with_args, 2);
}

/// Arguments act in order: an option with its value, or any other argument, and
/// then the rest.
pub proof fn law_arguments_act_in_order(
    o: OptionsView,
    arg: Seq<char>,
    value: Seq<char>,
    rest: Seq<Seq<char>>,
)
    ensures
        takes_value(arg) ==> with_args(o, seq![arg, value] + rest) == with_args(
            with_args(o, seq![arg, value]),
            rest,
        ),
        takes_value(arg) ==> with_args(o, seq![arg]) == o,
        !takes_value(arg) ==> with_args(o, seq![arg] + rest) == with_args(
            with_args(o, seq![arg]),
            rest,
        ),
        !takes_value(arg) && arg != "--allow-device-hide"@ && arg != "--foreground"@ ==> with_args(
            o,
            seq![arg],
        ) == o,
        takes_value(arg) <==> arg == "--config"@ || arg == "--hidden-state"@ || arg
            == "--pidfile"@ || arg == "--restore-hidden-state"@,
{
    let two = seq![arg, value];
    let one = seq![arg];
    assert((two + rest).skip(2) =~= rest);
    assert((one + rest).skip(1) =~= rest);
    assert(two.skip(2) =~= Seq::<Seq<char>>::empty());
    assert(one.skip(1) =~= Seq::<Seq<char>>::empty());
    assert((two + rest)[0] == arg && (two + rest)[1] == value && (one + rest)[0] == arg);
    reveal_with_fuel(with_args, 2);
}

/// Without arguments the configuration stands where it is installed, nothing is
/// hidden, and the daemon goes to the background.
pub proof fn law_no_arguments()
    ensures
        ({
            let o = with_args(default_options(), Seq::empty());
            &&& o.config == "/sdcard/.keyforge/keyforge.conf"@
            &&& !o.allow_device_hide && !o.foreground
            &&& o.hidden_state is None && o.pidfile is None && o.restore_hidden_state is None
        }),
{
}

} // verus!
