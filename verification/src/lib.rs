pub mod text;
pub mod wayproto;
pub mod reaper;
pub mod slot;
pub mod audio;
pub mod system_info;
pub mod steam;
pub mod plugin;
pub mod playlist;
pub mod apply;
pub mod hotplug;
pub mod router;
pub mod routing;
