//! The path table: XDG base directories and every file the tool
//! reads or writes, built once from explicit inputs.

use vstd::prelude::*;
use vstd::string::StringExecFns;

verus! {

/// The XDG base directories, after overrides and defaults.
#[derive(Debug, Clone)]
pub struct XdgPaths {
    pub config: String,
    pub data: String,
    pub state: String,
    pub cache: String,
    pub pictures: String,
    pub videos: String,
}

pub(crate) fn joined(a: &str, b: &str) -> (r: String)
    ensures
        r@ == a@ + b@,
{
    let mut s = a.to_owned();
    s.append(b);
    s
}

fn pick(home: &str, over: Option<String>, suffix: &str) -> (r: String)
    ensures
        match over {
            Some(v) => r@ == v@,
            None => r@ == home@ + suffix@,
        },
{
    match over {
        Some(v) => v,
        None => joined(home, suffix),
    }
}

/// Builds the XDG base directories from the home directory and the
/// override values the environment supplied.
pub fn xdg_paths(
    home: &str,
    config: Option<String>,
    data: Option<String>,
    state: Option<String>,
    cache: Option<String>,
    pictures: Option<String>,
    videos: Option<String>,
) -> (r: XdgPaths)
    ensures
        (match config {
            Some(v) => r.config@ == v@,
            None => r.config@ == home@ + "/.config"@,
        }),
        (match data {
            Some(v) => r.data@ == v@,
            None => r.data@ == home@ + "/.local/share"@,
        }),
        (match state {
            Some(v) => r.state@ == v@,
            None => r.state@ == home@ + "/.local/state"@,
        }),
        (match cache {
            Some(v) => r.cache@ == v@,
            None => r.cache@ == home@ + "/.cache"@,
        }),
        (match pictures {
            Some(v) => r.pictures@ == v@,
            None => r.pictures@ == home@ + "/Pictures"@,
        }),
        (match videos {
            Some(v) => r.videos@ == v@,
            None => r.videos@ == home@ + "/Videos"@,
        }),
{
    XdgPaths {
        config: pick(home, config, "/.config"),
        data: pick(home, data, "/.local/share"),
        state: pick(home, state, "/.local/state"),
        cache: pick(home, cache, "/.cache"),
        pictures: pick(home, pictures, "/Pictures"),
        videos: pick(home, videos, "/Videos"),
    }
}

/// Every directory and file the tool touches.
#[derive(Debug, Clone)]
pub struct VelaPaths {
    pub config_dir: String,
    pub data_dir: String,
    pub state_dir: String,
    pub cache_dir: String,
    pub user_config_path: String,
    pub templates_dir: String,
    pub user_templates_dir: String,
    pub theme_dir: String,
    pub scheme_path: String,
    pub scheme_data_dir: String,
    pub scheme_cache_dir: String,
    pub wallpapers_dir: String,
    pub wallpaper_path_path: String,
    pub wallpaper_link_path: String,
    pub wallpaper_thumb_path: String,
    pub wallpapers_cache_dir: String,
    pub screenshots_dir: String,
    pub screenshots_cache_dir: String,
    pub recordings_dir: String,
    pub recording_path: String,
    pub recording_notif_path: String,
    pub emojis_path: String,
}

/// Builds the full path table. A workspace root redirects templates,
/// schemes and the emoji list into the source tree.
pub fn build_paths(
    xdg: &XdgPaths,
    workspace_root: Option<&String>,
    wallpapers_over: Option<String>,
    screenshots_over: Option<String>,
    recordings_over: Option<String>,
) -> (r: VelaPaths)
    ensures
        r.config_dir@ == xdg.config@ + "/vela"@,
        r.data_dir@ == xdg.data@ + "/vela"@,
        r.state_dir@ == xdg.state@ + "/vela"@,
        r.cache_dir@ == xdg.cache@ + "/vela"@,
        r.user_config_path@ == xdg.config@ + "/vela"@ + "/cli.json"@,
        (match workspace_root {
            Some(root) => r.templates_dir@ == root@ + "/cli/src/vela/data/templates"@,
            None => r.templates_dir@ == xdg.config@ + "/vela"@ + "/templates"@,
        }),
        r.user_templates_dir@ == xdg.config@ + "/vela"@ + "/templates"@,
        r.theme_dir@ == xdg.state@ + "/vela"@ + "/theme"@,
        r.scheme_path@ == xdg.state@ + "/vela"@ + "/scheme.json"@,
        (match workspace_root {
            Some(root) => r.scheme_data_dir@ == root@ + "/cli/src/vela/data/schemes"@,
            None => r.scheme_data_dir@ == xdg.data@ + "/vela"@ + "/schemes"@,
        }),
        r.scheme_cache_dir@ == xdg.cache@ + "/vela"@ + "/schemes"@,
        (match wallpapers_over {
            Some(v) => r.wallpapers_dir@ == v@,
            None => r.wallpapers_dir@ == xdg.pictures@ + "/Wallpapers"@,
        }),
        r.wallpaper_path_path@ == xdg.state@ + "/vela"@ + "/wallpaper/path.txt"@,
        r.wallpaper_link_path@ == xdg.state@ + "/vela"@ + "/wallpaper/current"@,
        r.wallpaper_thumb_path@ == xdg.state@ + "/vela"@ + "/wallpaper/thumbnail.jpg"@,
        r.wallpapers_cache_dir@ == xdg.cache@ + "/vela"@ + "/wallpapers"@,
        (match screenshots_over {
            Some(v) => r.screenshots_dir@ == v@,
            None => r.screenshots_dir@ == xdg.pictures@ + "/Screenshots"@,
        }),
        r.screenshots_cache_dir@ == xdg.cache@ + "/vela"@ + "/screenshots"@,
        (match recordings_over {
            Some(v) => r.recordings_dir@ == v@,
            None => r.recordings_dir@ == xdg.videos@ + "/Recordings"@,
        }),
        r.recording_path@ == xdg.state@ + "/vela"@ + "/record/recording.mp4"@,
        r.recording_notif_path@ == xdg.state@ + "/vela"@ + "/record/notifid.txt"@,
        (match workspace_root {
            Some(root) => r.emojis_path@ == root@ + "/cli/src/vela/data/emojis.txt"@,
            None => r.emojis_path@ == xdg.data@ + "/vela"@ + "/emojis.txt"@,
        }),
{
    let config_dir = joined(xdg.config.as_str(), "/vela");
    let data_dir = joined(xdg.data.as_str(), "/vela");
    let state_dir = joined(xdg.state.as_str(), "/vela");
    let cache_dir = joined(xdg.cache.as_str(), "/vela");
    let templates_dir = match workspace_root {
        Some(root) => joined(root.as_str(), "/cli/src/vela/data/templates"),
        None => joined(config_dir.as_str(), "/templates"),
    };
    let scheme_data_dir = match workspace_root {
        Some(root) => joined(root.as_str(), "/cli/src/vela/data/schemes"),
        None => joined(data_dir.as_str(), "/schemes"),
    };
    let emojis_path = match workspace_root {
        Some(root) => joined(root.as_str(), "/cli/src/vela/data/emojis.txt"),
        None => joined(data_dir.as_str(), "/emojis.txt"),
    };
    let wallpapers_dir = match wallpapers_over {
        Some(v) => v,
        None => joined(xdg.pictures.as_str(), "/Wallpapers"),
    };
    let screenshots_dir = match screenshots_over {
        Some(v) => v,
        None => joined(xdg.pictures.as_str(), "/Screenshots"),
    };
    let recordings_dir = match recordings_over {
        Some(v) => v,
        None => joined(xdg.videos.as_str(), "/Recordings"),
    };
    VelaPaths {
        user_config_path: joined(config_dir.as_str(), "/cli.json"),
        user_templates_dir: joined(config_dir.as_str(), "/templates"),
        theme_dir: joined(state_dir.as_str(), "/theme"),
        scheme_path: joined(state_dir.as_str(), "/scheme.json"),
        scheme_cache_dir: joined(cache_dir.as_str(), "/schemes"),
        wallpaper_path_path: joined(state_dir.as_str(), "/wallpaper/path.txt"),
        wallpaper_link_path: joined(state_dir.as_str(), "/wallpaper/current"),
        wallpaper_thumb_path: joined(state_dir.as_str(), "/wallpaper/thumbnail.jpg"),
        wallpapers_cache_dir: joined(cache_dir.as_str(), "/wallpapers"),
        screenshots_cache_dir: joined(cache_dir.as_str(), "/screenshots"),
        recording_path: joined(state_dir.as_str(), "/record/recording.mp4"),
        recording_notif_path: joined(state_dir.as_str(), "/record/notifid.txt"),
        config_dir,
        data_dir,
        state_dir,
        cache_dir,
        templates_dir,
        scheme_data_dir,
        wallpapers_dir,
        screenshots_dir,
        recordings_dir,
        emojis_path,
    }
}

} // verus!
