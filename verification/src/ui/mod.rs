pub mod text_window;
