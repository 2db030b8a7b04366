//! A minimal in-memory columnar table: named, homogeneously typed columns
//! sharing one row count, with text ingestion that infers each column's
//! kind and a renderer that writes the table back out as delimited text.
pub mod column;
pub mod data;
pub mod dataframe;
pub mod laws;
pub mod series;
pub mod text;
