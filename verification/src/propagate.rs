//! The propagation dispatcher: for each known consumer, whether to
//! render, what to render, where it goes, and what to do afterwards.
//! Each consumer's outcome depends only on its own toggle and
//! template, so one failure never blocks the others.

use vstd::prelude::*;
use crate::colormap::ColorMap;
use crate::colormap::Entries;
use crate::errors::ErrorKind;
use crate::errors::VelaError;
use crate::model::Mode;
use crate::model::mode_name;
use crate::paths::VelaPaths;
use crate::paths::joined;
use crate::template::render_template;
use crate::template::replace_all;
use crate::template::spec_gen_conf;
use crate::template::spec_render;
use crate::template::spec_replace_all;
use crate::template::gen_conf;
use crate::terminal::gen_sequences;
use crate::terminal::spec_gen_sequences;
use crate::terminal::values_ok;
use vstd::string::StringExecFns;

verus! {

/// The per-consumer enable flags from the user configuration; every
/// flag defaults to enabled.
#[derive(Clone, Copy, Debug, PartialEq, Eq, Structural)]
pub struct ThemeToggles {
    pub term: bool,
    pub hypr: bool,
    pub fuzzel: bool,
    pub btop: bool,
    pub nvtop: bool,
    pub htop: bool,
    pub cava: bool,
    pub vscode: bool,
    pub helix: bool,
    pub gtk: bool,
    pub qt: bool,
    pub warp: bool,
}

impl Default for ThemeToggles {
    fn default() -> (r: ThemeToggles)
        ensures
            r.term && r.hypr && r.fuzzel && r.btop && r.nvtop && r.htop && r.cava && r.vscode
                && r.helix && r.gtk && r.qt && r.warp,
    {
        ThemeToggles {
            term: true,
            hypr: true,
            fuzzel: true,
            btop: true,
            nvtop: true,
            htop: true,
            cava: true,
            vscode: true,
            helix: true,
            gtk: true,
            qt: true,
            warp: true,
        }
    }
}

pub open spec fn toggle_at(t: ThemeToggles, i: int) -> bool {
    if i == 0 {
        t.term
    } else if i == 1 {
        t.hypr
    } else if i == 2 {
        t.fuzzel
    } else if i == 3 {
        t.btop
    } else if i == 4 {
        t.nvtop
    } else if i == 5 {
        t.htop
    } else if i == 6 {
        t.cava
    } else if i == 7 {
        t.vscode
    } else if i == 8 {
        t.helix
    } else if i == 9 {
        t.gtk
    } else if i == 10 {
        t.qt
    } else {
        t.warp
    }
}

pub open spec fn consumer_name(i: int) -> Seq<char> {
    if i == 0 {
        "term"@
    } else if i == 1 {
        "hypr"@
    } else if i == 2 {
        "fuzzel"@
    } else if i == 3 {
        "btop"@
    } else if i == 4 {
        "nvtop"@
    } else if i == 5 {
        "htop"@
    } else if i == 6 {
        "cava"@
    } else if i == 7 {
        "vscode"@
    } else if i == 8 {
        "helix"@
    } else if i == 9 {
        "gtk"@
    } else if i == 10 {
        "qt"@
    } else {
        "warp"@
    }
}

/// Whether the consumer reads a template file (the first two are
/// generated programmatically).
pub open spec fn needs_template(i: int) -> bool {
    i >= 2
}

/// The `warp_mode` value injected for the warp template.
pub open spec fn warp_mode_name(mode: Mode) -> Seq<char> {
    if mode == Mode::Dark {
        "darker"@
    } else {
        "lighter"@
    }
}

/// The text a consumer receives.
pub open spec fn expected_content(
    i: int,
    colors: Entries,
    mode: Mode,
    tpl: Option<Seq<char>>,
) -> Seq<char> {
    if i == 0 {
        spec_gen_sequences(colors)
    } else if i == 1 {
        spec_gen_conf(colors)
    } else if i == 7 {
        spec_replace_all(spec_render(tpl.unwrap(), colors, true), "${mode}"@, mode_name(mode))
    } else if i == 11 {
        spec_render(
            spec_replace_all(tpl.unwrap(), "{{ $warp_mode }}"@, warp_mode_name(mode)),
            colors,
            true,
        )
    } else {
        spec_render(tpl.unwrap(), colors, true)
    }
}

/// The destinations a consumer's output is written to.
pub open spec fn expected_dests(
    i: int,
    state_dir: Seq<char>,
    config_dir: Seq<char>,
    data_dir: Seq<char>,
    xdg_config: Seq<char>,
) -> Seq<Seq<char>> {
    if i == 0 {
        seq![state_dir + "/sequences.txt"@]
    } else if i == 1 {
        seq![config_dir + "/hypr/scheme/current.conf"@]
    } else if i == 2 {
        seq![config_dir + "/fuzzel/fuzzel.ini"@]
    } else if i == 3 {
        seq![config_dir + "/btop/themes/vela.theme"@]
    } else if i == 4 {
        seq![config_dir + "/nvtop/nvtop.colors"@]
    } else if i == 5 {
        seq![config_dir + "/htop/htoprc"@]
    } else if i == 6 {
        seq![config_dir + "/cava/config"@]
    } else if i == 7 {
        seq![xdg_config + "/VSCodium/User/themes/vela-color-theme.json"@]
    } else if i == 8 {
        seq![config_dir + "/helix/themes/vela.toml"@]
    } else if i == 9 {
        seq![config_dir + "/gtk-3.0/gtk.css"@, config_dir + "/gtk-4.0/gtk.css"@]
    } else if i == 10 {
        seq![config_dir + "/qt5ct/colors/vela.colors"@, config_dir + "/qt6ct/colors/vela.colors"@]
    } else {
        seq![data_dir + "/warp-terminal/themes/vela.yaml"@]
    }
}

/// What happens after the write: nothing, a signal to a running
/// process, a broadcast to every pseudo-terminal, or a desktop-wide
/// color-scheme preference write.
#[derive(Debug, Clone)]
pub enum PostAction {
    Nothing,
    Signal(String),
    Broadcast,
    Dconf,
}

pub open spec fn post_ok(p: PostAction, i: int) -> bool {
    if i == 0 {
        p is Broadcast
    } else if i == 3 {
        match p {
            PostAction::Signal(s) => s@ == "btop"@,
            _ => false,
        }
    } else if i == 5 {
        match p {
            PostAction::Signal(s) => s@ == "htop"@,
            _ => false,
        }
    } else if i == 6 {
        match p {
            PostAction::Signal(s) => s@ == "cava"@,
            _ => false,
        }
    } else if i == 9 {
        p is Dconf
    } else {
        p is Nothing
    }
}

/// One consumer's result.
#[derive(Debug, Clone)]
pub enum Outcome {
    Skipped { id: String },
    Rendered { id: String, dests: Vec<String>, content: String, post: PostAction },
    Failed { id: String, error: VelaError },
}

/// Whether an outcome is the one the table prescribes for row `i`.
pub open spec fn outcome_matches(
    o: Outcome,
    i: int,
    tog: ThemeToggles,
    colors: Entries,
    mode: Mode,
    state_dir: Seq<char>,
    config_dir: Seq<char>,
    data_dir: Seq<char>,
    xdg_config: Seq<char>,
    tpl: Option<Seq<char>>,
) -> bool {
    match o {
        Outcome::Skipped { id } => id@ == consumer_name(i) && !toggle_at(tog, i),
        Outcome::Failed { id, error } => id@ == consumer_name(i) && toggle_at(tog, i)
            && needs_template(i) && tpl is None && error.kind == ErrorKind::Io,
        Outcome::Rendered { id, dests, content, post } => {
            &&& id@ == consumer_name(i)
            &&& toggle_at(tog, i)
            &&& (needs_template(i) ==> tpl is Some)
            &&& content@ == expected_content(i, colors, mode, tpl)
            &&& dests@.map_values(|d: String| d@) == expected_dests(
                i,
                state_dir,
                config_dir,
                data_dir,
                xdg_config,
            )
            &&& post_ok(post, i)
        },
    }
}

/// The qt template file for a mode.
pub fn qt_template_name(mode: Mode) -> (r: String)
    ensures
        r@ == "qt"@ + mode_name(mode) + ".colors"@,
{
    let mut s = String::from_str("qt");
    s.append(mode.as_str());
    s.append(".colors");
    s
}

/// Renders one template consumer.
fn template_outcome(
    i: usize,
    id: &str,
    enabled: bool,
    tpl: &Option<String>,
    colors: &ColorMap,
    dests: Vec<String>,
    post: PostAction,
    Ghost(state_dir): Ghost<Seq<char>>,
    Ghost(config_dir): Ghost<Seq<char>>,
    Ghost(data_dir): Ghost<Seq<char>>,
    Ghost(xdg_config): Ghost<Seq<char>>,
    Ghost(tog): Ghost<ThemeToggles>,
    Ghost(mode): Ghost<Mode>,
) -> (o: Outcome)
    requires
        2 <= i < 12,
        i != 7 && i != 11,
        id@ == consumer_name(i as int),
        enabled == toggle_at(tog, i as int),
        dests@.map_values(|d: String| d@) == expected_dests(
            i as int,
            state_dir,
            config_dir,
            data_dir,
            xdg_config,
        ),
        post_ok(post, i as int),
    ensures
        outcome_matches(
            o,
            i as int,
            tog,
            colors.view(),
            mode,
            state_dir,
            config_dir,
            data_dir,
            xdg_config,
            match tpl {
                Some(t) => Some(t@),
                None => None,
            },
        ),
{
    if !enabled {
        return Outcome::Skipped { id: id.to_owned() };
    }
    match tpl {
        None => Outcome::Failed {
            id: id.to_owned(),
            error: VelaError::new(ErrorKind::Io, String::from_str("template missing")),
        },
        Some(t) => {
            let content = render_template(t.as_str(), colors, true);
            Outcome::Rendered { id: id.to_owned(), dests, content, post }
        },
    }
}

/// Applies the theme to every consumer. `templates` holds the twelve
/// template contents as read from disk (the first two rows are
/// generated and ignore theirs); a missing template fails only its
/// own consumer.
#[verifier::rlimit(100)]
#[verifier::spinoff_prover]
fn propagate_front(
    colors: &ColorMap,
    mode: Mode,
    toggles: &ThemeToggles,
    paths: &VelaPaths,
    xdg_config: &str,
    templates: &Vec<Option<String>>,
) -> (r: Vec<Outcome>)
    requires
        colors.wf(),
        values_ok(colors.view()),
        templates@.len() == 12,
    ensures
        r@.len() == 6,
        forall|i: int|
            0 <= i < 6 ==> outcome_matches(
                #[trigger] r@[i],
                i,
                *toggles,
                colors.view(),
                mode,
                paths.state_dir@,
                paths.config_dir@,
                paths.data_dir@,
                xdg_config@,
                match templates@[i] {
                    Some(t) => Some(t@),
                    None => None,
                },
            ),
{
    let ghost sd = paths.state_dir@;
    let ghost cd = paths.config_dir@;
    let ghost dd = paths.data_dir@;
    let ghost xc = xdg_config@;
    let ghost tog = *toggles;
    let mut out: Vec<Outcome> = Vec::new();

    // term: generated escape sequences, broadcast to the terminals
    if toggles.term {
        let content = gen_sequences(colors);
        let mut dests: Vec<String> = Vec::new();
        dests.push(joined(paths.state_dir.as_str(), "/sequences.txt"));
        proof {
            assert(dests@.map_values(|d: String| d@) =~= expected_dests(0, sd, cd, dd, xc));
        }
        out.push(
            Outcome::Rendered {
                id: String::from_str("term"),
                dests,
                content,
                post: PostAction::Broadcast,
            },
        );
    } else {
        out.push(Outcome::Skipped { id: String::from_str("term") });
    }

    // hypr: the generated variable file
    if toggles.hypr {
        let content = gen_conf(colors);
        let mut dests: Vec<String> = Vec::new();
        dests.push(joined(paths.config_dir.as_str(), "/hypr/scheme/current.conf"));
        proof {
            assert(dests@.map_values(|d: String| d@) =~= expected_dests(1, sd, cd, dd, xc));
        }
        out.push(
            Outcome::Rendered {
                id: String::from_str("hypr"),
                dests,
                content,
                post: PostAction::Nothing,
            },
        );
    } else {
        out.push(Outcome::Skipped { id: String::from_str("hypr") });
    }

    // fuzzel
    let mut dests: Vec<String> = Vec::new();
    dests.push(joined(paths.config_dir.as_str(), "/fuzzel/fuzzel.ini"));
    proof {
        assert(dests@.map_values(|d: String| d@) =~= expected_dests(2, sd, cd, dd, xc));
    }
    out.push(
        template_outcome(
            2,
            "fuzzel",
            toggles.fuzzel,
            &templates[2],
            colors,
            dests,
            PostAction::Nothing,
            Ghost(sd),
            Ghost(cd),
            Ghost(dd),
            Ghost(xc),
            Ghost(tog),
            Ghost(mode),
        ),
    );

    // btop, signalled afterwards
    let mut dests: Vec<String> = Vec::new();
    dests.push(joined(paths.config_dir.as_str(), "/btop/themes/vela.theme"));
    proof {
        assert(dests@.map_values(|d: String| d@) =~= expected_dests(3, sd, cd, dd, xc));
    }
    out.push(
        template_outcome(
            3,
            "btop",
            toggles.btop,
            &templates[3],
            colors,
            dests,
            PostAction::Signal(String::from_str("btop")),
            Ghost(sd),
            Ghost(cd),
            Ghost(dd),
            Ghost(xc),
            Ghost(tog),
            Ghost(mode),
        ),
    );

    // nvtop
    let mut dests: Vec<String> = Vec::new();
    dests.push(joined(paths.config_dir.as_str(), "/nvtop/nvtop.colors"));
    proof {
        assert(dests@.map_values(|d: String| d@) =~= expected_dests(4, sd, cd, dd, xc));
    }
    out.push(
        template_outcome(
            4,
            "nvtop",
            toggles.nvtop,
            &templates[4],
            colors,
            dests,
            PostAction::Nothing,
            Ghost(sd),
            Ghost(cd),
            Ghost(dd),
            Ghost(xc),
            Ghost(tog),
            Ghost(mode),
        ),
    );

    // htop, signalled afterwards
    let mut dests: Vec<String> = Vec::new();
    dests.push(joined(paths.config_dir.as_str(), "/htop/htoprc"));
    proof {
        assert(dests@.map_values(|d: String| d@) =~= expected_dests(5, sd, cd, dd, xc));
    }
    out.push(
        template_outcome(
            5,
            "htop",
            toggles.htop,
            &templates[5],
            colors,
            dests,
            PostAction::Signal(String::from_str("htop")),
            Ghost(sd),
            Ghost(cd),
            Ghost(dd),
            Ghost(xc),
            Ghost(tog),
            Ghost(mode),
        ),
    );

    out
}

#[verifier::rlimit(100)]
#[verifier::spinoff_prover]
fn propagate_back(
    colors: &ColorMap,
    mode: Mode,
    toggles: &ThemeToggles,
    paths: &VelaPaths,
    xdg_config: &str,
    templates: &Vec<Option<String>>,
) -> (r: Vec<Outcome>)
    requires
        colors.wf(),
        values_ok(colors.view()),
        templates@.len() == 12,
    ensures
        r@.len() == 6,
        forall|i: int|
            0 <= i < 6 ==> outcome_matches(
                #[trigger] r@[i],
                i + 6,
                *toggles,
                colors.view(),
                mode,
                paths.state_dir@,
                paths.config_dir@,
                paths.data_dir@,
                xdg_config@,
                match templates@[i + 6] {
                    Some(t) => Some(t@),
                    None => None,
                },
            ),
{
    let ghost sd = paths.state_dir@;
    let ghost cd = paths.config_dir@;
    let ghost dd = paths.data_dir@;
    let ghost xc = xdg_config@;
    let ghost tog = *toggles;
    let mut out: Vec<Outcome> = Vec::new();

    // cava, signalled afterwards
    let mut dests: Vec<String> = Vec::new();
    dests.push(joined(paths.config_dir.as_str(), "/cava/config"));
    proof {
        assert(dests@.map_values(|d: String| d@) =~= expected_dests(6, sd, cd, dd, xc));
    }
    out.push(
        template_outcome(
            6,
            "cava",
            toggles.cava,
            &templates[6],
            colors,
            dests,
            PostAction::Signal(String::from_str("cava")),
            Ghost(sd),
            Ghost(cd),
            Ghost(dd),
            Ghost(xc),
            Ghost(tog),
            Ghost(mode),
        ),
    );

    // vscode: rendered, then the mode placeholder substituted
    if !toggles.vscode {
        out.push(Outcome::Skipped { id: String::from_str("vscode") });
    } else {
        match &templates[7] {
            None => {
                out.push(
                    Outcome::Failed {
                        id: String::from_str("vscode"),
                        error: VelaError::new(
                            ErrorKind::Io,
                            String::from_str("template missing"),
                        ),
                    },
                );
            },
            Some(t) => {
                proof {
                    reveal_strlit("${mode}");
                }
                let rendered = render_template(t.as_str(), colors, true);
                let content = replace_all(rendered.as_str(), "${mode}", mode.as_str());
                let mut dests: Vec<String> = Vec::new();
                dests.push(joined(xdg_config, "/VSCodium/User/themes/vela-color-theme.json"));
                proof {
                    reveal_strlit("${mode}");
                    assert(dests@.map_values(|d: String| d@) =~= expected_dests(
                        7,
                        sd,
                        cd,
                        dd,
                        xc,
                    ));
                }
                out.push(
                    Outcome::Rendered {
                        id: String::from_str("vscode"),
                        dests,
                        content,
                        post: PostAction::Nothing,
                    },
                );
            },
        }
    }

    // helix
    let mut dests: Vec<String> = Vec::new();
    dests.push(joined(paths.config_dir.as_str(), "/helix/themes/vela.toml"));
    proof {
        assert(dests@.map_values(|d: String| d@) =~= expected_dests(8, sd, cd, dd, xc));
    }
    out.push(
        template_outcome(
            8,
            "helix",
            toggles.helix,
            &templates[8],
            colors,
            dests,
            PostAction::Nothing,
            Ghost(sd),
            Ghost(cd),
            Ghost(dd),
            Ghost(xc),
            Ghost(tog),
            Ghost(mode),
        ),
    );

    // gtk: two files and the desktop-wide preference write
    let mut dests: Vec<String> = Vec::new();
    dests.push(joined(paths.config_dir.as_str(), "/gtk-3.0/gtk.css"));
    dests.push(joined(paths.config_dir.as_str(), "/gtk-4.0/gtk.css"));
    proof {
        assert(dests@.map_values(|d: String| d@) =~= expected_dests(9, sd, cd, dd, xc));
    }
    out.push(
        template_outcome(
            9,
            "gtk",
            toggles.gtk,
            &templates[9],
            colors,
            dests,
            PostAction::Dconf,
            Ghost(sd),
            Ghost(cd),
            Ghost(dd),
            Ghost(xc),
            Ghost(tog),
            Ghost(mode),
        ),
    );

    // qt: the same output for both toolkit generations
    let mut dests: Vec<String> = Vec::new();
    dests.push(joined(paths.config_dir.as_str(), "/qt5ct/colors/vela.colors"));
    dests.push(joined(paths.config_dir.as_str(), "/qt6ct/colors/vela.colors"));
    proof {
        assert(dests@.map_values(|d: String| d@) =~= expected_dests(10, sd, cd, dd, xc));
    }
    out.push(
        template_outcome(
            10,
            "qt",
            toggles.qt,
            &templates[10],
            colors,
            dests,
            PostAction::Nothing,
            Ghost(sd),
            Ghost(cd),
            Ghost(dd),
            Ghost(xc),
            Ghost(tog),
            Ghost(mode),
        ),
    );

    // warp: the mode word replaces its placeholder before rendering,
    // so it stays bare instead of falling back like an unknown token
    if !toggles.warp {
        out.push(Outcome::Skipped { id: String::from_str("warp") });
    } else {
        match &templates[11] {
            None => {
                out.push(
                    Outcome::Failed {
                        id: String::from_str("warp"),
                        error: VelaError::new(
                            ErrorKind::Io,
                            String::from_str("template missing"),
                        ),
                    },
                );
            },
            Some(t) => {
                let warp_word = if mode == Mode::Dark {
                    String::from_str("darker")
                } else {
                    String::from_str("lighter")
                };
                proof {
                    reveal_strlit("{{ $warp_mode }}");
                }
                let worded = replace_all(t.as_str(), "{{ $warp_mode }}", warp_word.as_str());
                let content = render_template(worded.as_str(), colors, true);
                let mut dests: Vec<String> = Vec::new();
                dests.push(joined(paths.data_dir.as_str(), "/warp-terminal/themes/vela.yaml"));
                proof {
                    assert(dests@.map_values(|d: String| d@) =~= expected_dests(
                        11,
                        sd,
                        cd,
                        dd,
                        xc,
                    ));
                }
                out.push(
                    Outcome::Rendered {
                        id: String::from_str("warp"),
                        dests,
                        content,
                        post: PostAction::Nothing,
                    },
                );
            },
        }
    }
    out
}

/// Applies the theme to every consumer. `templates` holds the twelve
/// template contents as read from disk (the first two rows are
/// generated and ignore theirs); a missing template fails only its
/// own consumer.
pub fn run_propagation(
    colors: &ColorMap,
    mode: Mode,
    toggles: &ThemeToggles,
    paths: &VelaPaths,
    xdg_config: &str,
    templates: &Vec<Option<String>>,
) -> (r: Vec<Outcome>)
    requires
        colors.wf(),
        values_ok(colors.view()),
        templates@.len() == 12,
    ensures
        r@.len() == 12,
        forall|i: int|
            0 <= i < 12 ==> outcome_matches(
                #[trigger] r@[i],
                i,
                *toggles,
                colors.view(),
                mode,
                paths.state_dir@,
                paths.config_dir@,
                paths.data_dir@,
                xdg_config@,
                match templates@[i] {
                    Some(t) => Some(t@),
                    None => None,
                },
            ),
{
    let mut out = propagate_front(colors, mode, toggles, paths, xdg_config, templates);
    let mut back = propagate_back(colors, mode, toggles, paths, xdg_config, templates);
    let ghost fv = out@;
    let ghost bv = back@;
    out.append(&mut back);
    proof {
        assert(out@ == fv + bv);
        assert forall|i: int| 0 <= i < 12 implies outcome_matches(
            #[trigger] out@[i],
            i,
            *toggles,
            colors.view(),
            mode,
            paths.state_dir@,
            paths.config_dir@,
            paths.data_dir@,
            xdg_config@,
            match templates@[i] {
                Some(t) => Some(t@),
                None => None,
            },
        ) by {
            if i < 6 {
                assert(out@[i] == fv[i]);
            } else {
                assert(out@[i] == bv[i - 6]);
            }
        }
    }
    out
}

/// A consumer whose toggle is on and whose template is present (or
/// generated) renders its exact output. Nothing about any other
/// consumer appears here: one consumer's missing template cannot
/// block another's rendering.
pub proof fn lemma_partial_failure_isolation(
    o: Outcome,
    i: int,
    tog: ThemeToggles,
    colors: Entries,
    mode: Mode,
    state_dir: Seq<char>,
    config_dir: Seq<char>,
    data_dir: Seq<char>,
    xdg_config: Seq<char>,
    tpl: Option<Seq<char>>,
)
    requires
        0 <= i < 12,
        outcome_matches(o, i, tog, colors, mode, state_dir, config_dir, data_dir, xdg_config, tpl),
        toggle_at(tog, i),
        needs_template(i) ==> tpl is Some,
    ensures
        o is Rendered,
        o matches Outcome::Rendered { id, dests, content, post } ==> content@ == expected_content(
            i,
            colors,
            mode,
            tpl,
        ),
{
}

/// The value written to the desktop-wide color-scheme preference:
/// the mode name behind the `prefer-` prefix, single-quoted.
pub fn dconf_color_scheme_value(mode: Mode) -> (r: String)
    ensures
        r@ == seq!['\''] + ("prefer-"@ + (mode_name(mode) + seq!['\''])),
{
    let mut out = String::new();
    crate::text::push_char(&mut out, '\'');
    out.append("prefer-");
    out.append(mode.as_str());
    crate::text::push_char(&mut out, '\'');
    proof {
        assert(out@ =~= seq!['\''] + ("prefer-"@ + (mode_name(mode) + seq!['\''])));
    }
    out
}

/// The compositor variable file: its destination under the
/// configuration root and its generated content.
pub fn apply_hypr(config_dir: &str, colors: &ColorMap) -> (r: (String, String))
    ensures
        r.0@ == config_dir@ + "/hypr/scheme/current.conf"@,
        r.1@ == spec_gen_conf(colors.view()),
{
    (joined(config_dir, "/hypr/scheme/current.conf"), gen_conf(colors))
}

} // verus!
