pub mod generate_dataset;
