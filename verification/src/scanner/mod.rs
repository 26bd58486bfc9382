pub mod recent_files;
