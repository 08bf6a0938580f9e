//! Detection of an anomalous minority of cells from sparse per-locus allele
//! counts: the integer side of the model (count matrices, locus selection,
//! Beta parameters, partitions, the convergence state machine and the
//! posterior locus mask), each step stated and proved.

pub mod alpha_beta;
pub mod cell_set;
pub mod cells;
pub mod combiner;
pub mod convergence;
pub mod id_map;
pub mod labels;
pub mod likelihood;
pub mod load_data;
pub mod locus_filter;
pub mod mtx;
pub mod order;
pub mod outlier;
pub mod posterior;
pub mod vcf;
