//! Conversion of biological sequence records (FASTA, FASTQ, GFF, alignments)
//! into newline-delimited JSON, CSV and a columnar batch layout, and back.

/// Free-form annotation attributes: keys unique, first occurrence kept.
pub mod attributes;

/// The record shapes: sequence, sequence with qualities, annotation, alignment.
pub mod types;

/// Text forms of values: JSON literals, decimal numbers, CSV rows.
pub mod text;

/// Newline-delimited JSON output of records.
pub mod json_writer;

/// The columnar layout: fixed schemas, column building, fixed-size chunks.
pub mod parquet_writer;

/// Rebuilding records from the rows of a columnar file.
pub mod parquet_reader;

/// CSV output of records.
pub mod csv_writer;

/// The decisions of the conversion loops: when to go on, stop or fail.
pub mod pipeline;

/// One interface over the line-oriented output formats.
pub mod writer;
