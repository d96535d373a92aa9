pub mod index_part_format;
