pub mod flickr_photos_provider;
