pub mod import_pgdata;
