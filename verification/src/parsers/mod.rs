pub mod cpg_parser;
pub mod dbf_parser;
pub mod prj_parser;
pub mod shp_parser;
