//! Ingestion of a framed telemetry stream from a serial sensor.
//!
//! A window of raw bytes read from the device yields a candidate frame
//! ([`frame`]), the frame is parsed into a temperature and a humidity
//! ([`fields`], [`decimal`]), the reading is stamped with its capture time
//! ([`reading`]) and buffered ([`batch`]). A full batch is sorted,
//! deduplicated on ties and encoded as comma-separated records ([`writer`])
//! for the caller to append to its store. [`ingest`] ties the steps into one
//! cycle; [`batch_laws`] states what holds of the buffer over any run of
//! pushes.
//!
//! The library opens no device and no file. Its functions take the bytes that
//! were read and hand back the bytes to write.

pub mod batch;
pub mod batch_laws;
pub mod decimal;
pub mod fields;
pub mod frame;
pub mod ingest;
pub mod reading;
pub mod writer;
