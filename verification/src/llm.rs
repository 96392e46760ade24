pub mod gemini_client;
