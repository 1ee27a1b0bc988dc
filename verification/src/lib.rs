pub mod actions;
pub mod alike;
pub mod analysis_runs;
pub mod arithmetic;
pub mod binary32;
pub mod binary64;
pub mod camera;
pub mod colormap;
pub mod csv;
pub mod dataset_cache;
pub mod decimals;
pub mod diagnostics;
pub mod drawing;
pub mod export;
pub mod export_dialog;
pub mod external_tools;
pub mod host_data;
pub mod host_views;
pub mod hotpixel;
pub mod inspection_3d;
pub mod inspector;
pub mod investigation;
pub mod json;
pub mod lists;
pub mod live_state;
pub mod naming;
pub mod ordered_set;
pub mod panels;
pub mod places;
pub mod plugins;
pub mod raster;
pub mod registry;
pub mod related;
pub mod replay;
pub mod replay_time;
pub mod rounding;
pub mod rows;
pub mod scene;
pub mod seconds;
pub mod session;
pub mod settings;
pub mod single;
pub mod table_view;
pub mod text;
pub mod text_map;
pub mod timestamps;
pub mod view_state;
pub mod viewer;
pub mod whole_text;
pub mod wide;
